use sample_range::atlas::{blit_glyph, pack_atlas, AtlasPacker, GlyphBitmap, Placement};

#[test]
fn packer_fills_shelves() {
    let mut p = AtlasPacker::new(10, 10);
    assert_eq!(p.place(0, 5), Placement::Invisible);
    assert_eq!(p.place(4, 3), Placement::At { x: 0, y: 0 });
    assert_eq!(p.place(4, 2), Placement::At { x: 5, y: 0 });
    assert_eq!(p.place(4, 4), Placement::At { x: 0, y: 4 });
    assert_eq!(p.place(3, 3), Placement::At { x: 5, y: 4 });
    assert_eq!(p.place(5, 3), Placement::Skipped);
    assert_eq!(p.place(1, 1), Placement::At { x: 0, y: 9 });
}

#[test]
fn packer_skips_when_full() {
    let mut p = AtlasPacker::new(8, 4);
    assert_eq!(p.place(7, 5), Placement::Skipped);
    assert_eq!(p.place(7, 4), Placement::At { x: 0, y: 0 });
    assert_eq!(p.place(2, 1), Placement::Skipped);
}

#[test]
fn blit_copies_rows() {
    let mut pixels = vec![9u8; 5 * 4];
    let bitmap = [1u8, 2, 3, 4, 5, 6];
    blit_glyph(&mut pixels, 5, 1, 2, 3, 2, &bitmap);
    let expected: Vec<u8> = vec![
        9, 9, 9, 9, 9, //
        9, 9, 9, 9, 9, //
        9, 1, 2, 3, 9, //
        9, 4, 5, 6, 9, //
    ];
    assert_eq!(pixels, expected);
}

#[test]
fn packed_glyphs_do_not_clobber_each_other() {
    let mut p = AtlasPacker::new(16, 16);
    let mut pixels = vec![0u8; 16 * 16];
    let sizes = [(5u32, 4u32, 1u8), (6, 3, 2), (7, 5, 3), (3, 3, 4)];
    let mut spots = Vec::new();
    for &(w, h, c) in &sizes {
        if let Placement::At { x, y } = p.place(w, h) {
            let bitmap = vec![c; (w * h) as usize];
            blit_glyph(&mut pixels, 16, x, y, w, h, &bitmap);
            spots.push((x, y, w, h, c));
        }
    }
    assert_eq!(spots.len(), 4);
    for &(x, y, w, h, c) in &spots {
        for py in 0..h {
            for px in 0..w {
                assert_eq!(pixels[((y + py) * 16 + x + px) as usize], c);
            }
        }
    }
}

#[test]
fn full_width_glyph_is_placed() {
    let mut p = AtlasPacker::new(512, 512);
    // A full-width glyph never fits after the cursor, so it opens a shelf.
    assert_eq!(p.place(512, 20), Placement::At { x: 0, y: 1 });
    assert_eq!(p.cursor(), (513, 1, 20));
    assert_eq!(p.place(10, 10), Placement::At { x: 0, y: 22 });
    assert_eq!(p.place(512, 500), Placement::Skipped);
}

#[test]
fn pack_atlas_keeps_every_glyph() {
    let sizes = [(5u32, 4u32), (0, 7), (6, 3), (7, 5), (3, 3), (16, 2), (9, 9)];
    let glyphs: Vec<GlyphBitmap> = sizes
        .iter()
        .enumerate()
        .map(|(k, &(w, h))| GlyphBitmap {
            width: w,
            height: h,
            pixels: (0..w * h).map(|i| (k as u8 + 1) * 10 + (i % 7) as u8).collect(),
        })
        .collect();
    let a = pack_atlas(16, 16, &glyphs).unwrap();
    assert_eq!(a.pixels.len(), 256);
    assert_eq!(a.placements.len(), sizes.len());
    assert_eq!(a.placements[1], Placement::Invisible);
    let mut packer = AtlasPacker::new(16, 16);
    let mut covered = vec![false; 256];
    for (k, g) in glyphs.iter().enumerate() {
        let p = packer.place(g.width, g.height);
        assert_eq!(a.placements[k], p);
        if let Placement::At { x, y } = p {
            for py in 0..g.height {
                for px in 0..g.width {
                    let idx = ((y + py) * 16 + x + px) as usize;
                    assert!(!covered[idx]);
                    covered[idx] = true;
                    assert_eq!(a.pixels[idx], g.pixels[(py * g.width + px) as usize]);
                }
            }
        }
    }
    for (idx, &c) in covered.iter().enumerate() {
        if !c {
            assert_eq!(a.pixels[idx], 0);
        }
    }
    assert_eq!(a.placements[6], Placement::Skipped);
}

//! Unit-tagged measurements of the launch-monitor relay, such as `"180.5m"`
//! or `"67.2mps"`: which unit a text names and the text of its number.
use vstd::prelude::*;
use crate::text::{
    all_white, bare, chars_of, is_white_space, lemma_trim_shape, skip_white_back, skip_white_front, trim,
    trim_range,
};

verus! {

/// Whether `s` ends with `suffix`.
pub open spec fn ends_with(s: Seq<char>, suffix: Seq<char>) -> bool {
    s.len() >= suffix.len() && s.subrange(s.len() - suffix.len(), s.len() as int) == suffix
}

/// Whether `v[lo..hi]` ends with `suffix`.
fn has_suffix(v: &Vec<char>, lo: usize, hi: usize, suffix: &[char]) -> (b: bool)
    requires
        lo <= hi <= v.len(),
    ensures
        b == ends_with(v@.subrange(lo as int, hi as int), suffix@),
{
    let k: usize = suffix.len();
    if hi - lo < k {
        return false;
    }
    let start: usize = hi - k;
    let mut j: usize = 0;
    while j < k
        invariant
            lo <= start,
            start + k == hi <= v.len(),
            k == suffix@.len(),
            j <= k,
            forall|m: int| 0 <= m < j ==> v@[start + m] == suffix@[m],
        decreases k - j,
    {
        if v[start + j] != suffix[j] {
            assert(v@.subrange(lo as int, hi as int).subrange(
                (hi - lo) - k,
                (hi - lo) as int,
            )[j as int] != suffix@[j as int]);
            return false;
        }
        j += 1;
    }
    assert(v@.subrange(lo as int, hi as int).subrange((hi - lo) - k, (hi - lo) as int) =~= suffix@);
    true
}

/// The unit of a distance text.
#[derive(Clone, Copy, PartialEq, Eq, Debug)]
pub enum DistanceUnit {
    Yards,
    Feet,
    Inches,
    Meters,
}

/// The unit of a speed text.
#[derive(Clone, Copy, PartialEq, Eq, Debug)]
pub enum SpeedUnit {
    MetersPerSecond,
    MilesPerHour,
    KilometersPerHour,
    FeetPerSecond,
}

/// `t` without its last `k` characters, trimmed.
pub open spec fn number_before(t: Seq<char>, k: int) -> Seq<char> {
    trim(t.subrange(0, t.len() - k))
}

/// The number text and unit of a distance: the text is trimmed, then must
/// end with `yds`, `yd`, `ft`, `in` or `m`; what stands before the unit,
/// trimmed again, is the number.
pub open spec fn distance_parts(s: Seq<char>) -> Option<(Seq<char>, DistanceUnit)> {
    let t = trim(s);
    if ends_with(t, seq!['y', 'd', 's']) {
        Some((number_before(t, 3), DistanceUnit::Yards))
    } else if ends_with(t, seq!['y', 'd']) {
        Some((number_before(t, 2), DistanceUnit::Yards))
    } else if ends_with(t, seq!['f', 't']) {
        Some((number_before(t, 2), DistanceUnit::Feet))
    } else if ends_with(t, seq!['i', 'n']) {
        Some((number_before(t, 2), DistanceUnit::Inches))
    } else if ends_with(t, seq!['m']) {
        Some((number_before(t, 1), DistanceUnit::Meters))
    } else {
        None
    }
}

/// The number text and unit of a speed: the text is trimmed, then must end
/// with `mps`, `mph`, `kph` or `fps`; what stands before the unit, trimmed
/// again, is the number.
pub open spec fn speed_parts(s: Seq<char>) -> Option<(Seq<char>, SpeedUnit)> {
    let t = trim(s);
    if ends_with(t, seq!['m', 'p', 's']) {
        Some((number_before(t, 3), SpeedUnit::MetersPerSecond))
    } else if ends_with(t, seq!['m', 'p', 'h']) {
        Some((number_before(t, 3), SpeedUnit::MilesPerHour))
    } else if ends_with(t, seq!['k', 'p', 'h']) {
        Some((number_before(t, 3), SpeedUnit::KilometersPerHour))
    } else if ends_with(t, seq!['f', 'p', 's']) {
        Some((number_before(t, 3), SpeedUnit::FeetPerSecond))
    } else {
        None
    }
}

proof fn lemma_ends_with_tail(t: Seq<char>, suffix: Seq<char>, k: int)
    requires
        ends_with(t, suffix),
        1 <= k <= suffix.len(),
    ensures
        t[t.len() - k] == suffix[suffix.len() - k],
{
    assert(t.subrange(t.len() - suffix.len(), t.len() as int)[suffix.len() - k] == t[t.len() - k]);
}

/// A distance text names at most one unit: no text ends with two of the
/// suffixes `yds`, `yd`, `ft`, `in`, `m`. So the unit found does not depend
/// on the order in which the suffixes are tried.
pub proof fn lemma_distance_suffixes_exclusive(t: Seq<char>)
    ensures
        ends_with(t, seq!['y', 'd', 's']) as int + ends_with(t, seq!['y', 'd']) as int + ends_with(
            t,
            seq!['f', 't'],
        ) as int + ends_with(t, seq!['i', 'n']) as int + ends_with(t, seq!['m']) as int <= 1,
{
    let sufs = seq![seq!['y', 'd', 's'], seq!['y', 'd'], seq!['f', 't'], seq!['i', 'n'], seq!['m']];
    assert forall|a: int| 0 <= a < 5 && ends_with(t, #[trigger] sufs[a]) implies t.last() == sufs[a].last() by {
        lemma_ends_with_tail(t, sufs[a], 1);
    }
    assert(sufs[0].last() == 's' && sufs[1].last() == 'd' && sufs[2].last() == 't' && sufs[3].last() == 'n' && sufs[4].last() == 'm');
}

/// A speed text names at most one unit: no text ends with two of the
/// suffixes `mps`, `mph`, `kph`, `fps`.
pub proof fn lemma_speed_suffixes_exclusive(t: Seq<char>)
    ensures
        ends_with(t, seq!['m', 'p', 's']) as int + ends_with(t, seq!['m', 'p', 'h']) as int
            + ends_with(t, seq!['k', 'p', 'h']) as int + ends_with(t, seq!['f', 'p', 's']) as int
            <= 1,
{
    let sufs = seq![seq!['m', 'p', 's'], seq!['m', 'p', 'h'], seq!['k', 'p', 'h'], seq!['f', 'p', 's']];
    assert forall|a: int| 0 <= a < 4 && ends_with(t, #[trigger] sufs[a]) implies t.last() == sufs[a].last()
        && t[t.len() - 3] == sufs[a][0] by {
        lemma_ends_with_tail(t, sufs[a], 1);
        lemma_ends_with_tail(t, sufs[a], 3);
    }
    assert(sufs[0][0] == 'm' && sufs[0].last() == 's');
    assert(sufs[1][0] == 'm' && sufs[1].last() == 'h');
    assert(sufs[2][0] == 'k' && sufs[2].last() == 'h');
    assert(sufs[3][0] == 'f' && sufs[3].last() == 's');
}

/// The suffix that names a speed unit.
pub open spec fn speed_suffix(u: SpeedUnit) -> Seq<char> {
    match u {
        SpeedUnit::MetersPerSecond => seq!['m', 'p', 's'],
        SpeedUnit::MilesPerHour => seq!['m', 'p', 'h'],
        SpeedUnit::KilometersPerHour => seq!['k', 'p', 'h'],
        SpeedUnit::FeetPerSecond => seq!['f', 'p', 's'],
    }
}

/// Whether `suffix` is a name of the distance unit `u`.
pub open spec fn names_distance_unit(suffix: Seq<char>, u: DistanceUnit) -> bool {
    match u {
        DistanceUnit::Yards => suffix == seq!['y', 'd', 's'] || suffix == seq!['y', 'd'],
        DistanceUnit::Feet => suffix == seq!['f', 't'],
        DistanceUnit::Inches => suffix == seq!['i', 'n'],
        DistanceUnit::Meters => suffix == seq!['m'],
    }
}

proof fn lemma_split_at_suffix(s: Seq<char>, k: int) -> (r: (Seq<char>, Seq<char>, Seq<char>))
    requires
        0 <= k <= trim(s).len(),
    ensures
        all_white(r.0),
        all_white(r.1),
        all_white(r.2),
        s == r.0 + number_before(trim(s), k) + r.1 + trim(s).subrange(
            trim(s).len() - k,
            trim(s).len() as int,
        ) + r.2,
        bare(number_before(trim(s), k)),
{
    let t = trim(s);
    lemma_trim_shape(s);
    let (a0, b0) = choose|a: Seq<char>, b: Seq<char>| all_white(a) && all_white(b) && s == a + t + b;
    let x = t.subrange(0, t.len() - k);
    let suf = t.subrange(t.len() - k, t.len() as int);
    assert(t =~= x + suf);
    lemma_trim_shape(x);
    let n = trim(x);
    let (a1, b1) = choose|a: Seq<char>, b: Seq<char>| all_white(a) && all_white(b) && x == a + n + b;
    let a = a0 + a1;
    assert(all_white(a)) by {
        assert forall|m: int| 0 <= m < a.len() implies is_white_space(#[trigger] a[m]) by {
            if m < a0.len() {
                assert(a[m] == a0[m]);
            } else {
                assert(a[m] == a1[m - a0.len()]);
            }
        }
    }
    assert(s =~= a + n + b1 + suf + b0);
    (a, b1, b0)
}

/// The number of a speed is bare: it neither starts nor ends with white
/// space, and the text is that number and the unit's suffix, with nothing
/// but white space around them and between them. So white space between
/// the number and the unit never reaches the number.
pub proof fn lemma_speed_number_bare(s: Seq<char>)
    ensures
        speed_parts(s) matches Some((n, u)) ==> bare(n) && exists|a: Seq<char>, w: Seq<char>, b: Seq<char>|
            all_white(a) && all_white(w) && all_white(b) && s == a + n + w + speed_suffix(u) + b,
{
    let t = trim(s);
    if let Some((n, u)) = speed_parts(s) {
        let r = lemma_split_at_suffix(s, 3);
        assert(t.subrange(t.len() - 3, t.len() as int) == speed_suffix(u));
        assert(s == r.0 + n + r.1 + speed_suffix(u) + r.2);
    }
}

/// The number of a distance is bare: it neither starts nor ends with white
/// space, and the text is that number and one of the unit's names, with
/// nothing but white space around them and between them.
pub proof fn lemma_distance_number_bare(s: Seq<char>)
    ensures
        distance_parts(s) matches Some((n, u)) ==> bare(n) && exists|
            a: Seq<char>,
            w: Seq<char>,
            suffix: Seq<char>,
            b: Seq<char>,
        |
            all_white(a) && all_white(w) && all_white(b) && names_distance_unit(suffix, u) && s
                == a + n + w + suffix + b,
{
    let t = trim(s);
    if let Some((n, u)) = distance_parts(s) {
        let k: int = if ends_with(t, seq!['y', 'd', 's']) {
            3
        } else if ends_with(t, seq!['m']) && !ends_with(t, seq!['y', 'd']) && !ends_with(
            t,
            seq!['f', 't'],
        ) && !ends_with(t, seq!['i', 'n']) {
            1
        } else {
            2
        };
        let r = lemma_split_at_suffix(s, k);
        let suffix = t.subrange(t.len() - k, t.len() as int);
        assert(names_distance_unit(suffix, u));
        assert(s == r.0 + n + r.1 + suffix + r.2);
    }
}

/// The trimmed bounds of `v`: `v[a..b]` is `v` without surrounding white
/// space.
fn trimmed_bounds(v: &Vec<char>) -> (r: (usize, usize))
    ensures
        r.0 <= r.1 <= v.len(),
        v@.subrange(r.0 as int, r.1 as int) == trim(v@),
{
    assert(v@.subrange(0, v@.len() as int) =~= v@);
    let a: usize = skip_white_front(v, 0, v.len());
    let b: usize = skip_white_back(v, a, v.len());
    (a, b)
}

/// Splits a distance such as `"108.1yds"` or `"180.5m"` into the text of
/// its number and its unit; `None` when no known unit ends the text.
pub fn split_distance(s: &str) -> (r: Option<(String, DistanceUnit)>)
    ensures
        match r {
            Some((n, u)) => distance_parts(s@) == Some((n@, u)),
            None => distance_parts(s@) is None,
        },
{
    let v = chars_of(s);
    let (a, b) = trimmed_bounds(&v);
    let ghost t = trim(s@);
    assert(t.len() == b - a);
    if has_suffix(&v, a, b, &['y', 'd', 's']) {
        assert(v@.subrange(a as int, b - 3) =~= t.subrange(0, t.len() - 3));
        return Some((trim_range(&v, a, b - 3), DistanceUnit::Yards));
    }
    if has_suffix(&v, a, b, &['y', 'd']) {
        assert(v@.subrange(a as int, b - 2) =~= t.subrange(0, t.len() - 2));
        return Some((trim_range(&v, a, b - 2), DistanceUnit::Yards));
    }
    if has_suffix(&v, a, b, &['f', 't']) {
        assert(v@.subrange(a as int, b - 2) =~= t.subrange(0, t.len() - 2));
        return Some((trim_range(&v, a, b - 2), DistanceUnit::Feet));
    }
    if has_suffix(&v, a, b, &['i', 'n']) {
        assert(v@.subrange(a as int, b - 2) =~= t.subrange(0, t.len() - 2));
        return Some((trim_range(&v, a, b - 2), DistanceUnit::Inches));
    }
    let m: [char; 1] = ['m'];
    assert(m@ =~= seq!['m']);
    if has_suffix(&v, a, b, &m) {
        assert(v@.subrange(a as int, b - 1) =~= t.subrange(0, t.len() - 1));
        return Some((trim_range(&v, a, b - 1), DistanceUnit::Meters));
    }
    None
}

/// Splits a speed such as `"67.2mps"` or `"90mph"` into the text of its
/// number and its unit; `None` when no known unit ends the text.
pub fn split_speed(s: &str) -> (r: Option<(String, SpeedUnit)>)
    ensures
        match r {
            Some((n, u)) => speed_parts(s@) == Some((n@, u)),
            None => speed_parts(s@) is None,
        },
{
    let v = chars_of(s);
    let (a, b) = trimmed_bounds(&v);
    let ghost t = trim(s@);
    assert(t.len() == b - a);
    if b - a >= 3 {
        assert(v@.subrange(a as int, b - 3) =~= t.subrange(0, t.len() - 3));
    }
    if has_suffix(&v, a, b, &['m', 'p', 's']) {
        return Some((trim_range(&v, a, b - 3), SpeedUnit::MetersPerSecond));
    }
    if has_suffix(&v, a, b, &['m', 'p', 'h']) {
        return Some((trim_range(&v, a, b - 3), SpeedUnit::MilesPerHour));
    }
    if has_suffix(&v, a, b, &['k', 'p', 'h']) {
        return Some((trim_range(&v, a, b - 3), SpeedUnit::KilometersPerHour));
    }
    if has_suffix(&v, a, b, &['f', 'p', 's']) {
        return Some((trim_range(&v, a, b - 3), SpeedUnit::FeetPerSecond));
    }
    None
}

/// The unit-tagged texts of a live shot's ball without which the shot is not
/// read: its `carry_distance`, `total_distance` and `max_height`
/// (distances) and its `launch_speed` (a speed), each where it is given as
/// text.
#[derive(Clone, Debug)]
pub struct BallTexts {
    pub carry_distance: Option<String>,
    pub total_distance: Option<String>,
    pub max_height: Option<String>,
    pub launch_speed: Option<String>,
}

/// The required ball texts, each split into the text of its number and its
/// unit.
#[derive(Debug)]
pub struct BallMeasures {
    pub carry: (String, DistanceUnit),
    pub total: (String, DistanceUnit),
    pub height: (String, DistanceUnit),
    pub speed: (String, SpeedUnit),
}

/// The number text and unit of an optional distance text.
pub open spec fn distance_of(o: Option<String>) -> Option<(Seq<char>, DistanceUnit)> {
    match o {
        Some(s) => distance_parts(s@),
        None => None,
    }
}

/// The number text and unit of an optional speed text.
pub open spec fn speed_of(o: Option<String>) -> Option<(Seq<char>, SpeedUnit)> {
    match o {
        Some(s) => speed_parts(s@),
        None => None,
    }
}

fn distance_in(o: &Option<String>) -> (r: Option<(String, DistanceUnit)>)
    ensures
        match r {
            Some((n, u)) => distance_of(*o) == Some((n@, u)),
            None => distance_of(*o) is None,
        },
{
    match o {
        Some(s) => split_distance(s.as_str()),
        None => None,
    }
}

fn speed_in(o: &Option<String>) -> (r: Option<(String, SpeedUnit)>)
    ensures
        match r {
            Some((n, u)) => speed_of(*o) == Some((n@, u)),
            None => speed_of(*o) is None,
        },
{
    match o {
        Some(s) => split_speed(s.as_str()),
        None => None,
    }
}

/// Reads the measurements a live shot cannot do without: `Some` exactly
/// when the carry, total distance and maximum height are each given with a
/// distance unit and the launch speed with a speed unit; each is then split
/// into its number text and unit.
pub fn ball_measures(b: &BallTexts) -> (r: Option<BallMeasures>)
    ensures
        r is Some <==> {
            &&& distance_of(b.carry_distance) is Some
            &&& distance_of(b.total_distance) is Some
            &&& distance_of(b.max_height) is Some
            &&& speed_of(b.launch_speed) is Some
        },
        r matches Some(m) ==> {
            &&& distance_of(b.carry_distance) == Some((m.carry.0@, m.carry.1))
            &&& distance_of(b.total_distance) == Some((m.total.0@, m.total.1))
            &&& distance_of(b.max_height) == Some((m.height.0@, m.height.1))
            &&& speed_of(b.launch_speed) == Some((m.speed.0@, m.speed.1))
        },
{
    let carry = match distance_in(&b.carry_distance) {
        Some(c) => c,
        None => return None,
    };
    let total = match distance_in(&b.total_distance) {
        Some(t) => t,
        None => return None,
    };
    let height = match distance_in(&b.max_height) {
        Some(h) => h,
        None => return None,
    };
    let speed = match speed_in(&b.launch_speed) {
        Some(v) => v,
        None => return None,
    };
    Some(BallMeasures { carry, total, height, speed })
}

} // verus!

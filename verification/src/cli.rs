//! Command-line options, the choice of shot source, the screenshot frame
//! counter and the fullscreen keys.
use vstd::prelude::*;
use crate::csv::string_views;
use crate::text::{chars_of, same_text};

verus! {

/// The value of a run of decimal digits.
pub open spec fn decimal_value(s: Seq<char>) -> int
    decreases s.len(),
{
    if s.len() == 0 {
        0
    } else {
        10 * decimal_value(s.drop_last()) + (s.last() as int - '0' as int)
    }
}

/// Whether every character is an ASCII digit.
pub open spec fn all_digits(s: Seq<char>) -> bool {
    forall|k: int| 0 <= k < s.len() ==> '0' <= #[trigger] s[k] <= '9'
}

/// What `str::parse::<u32>` gives: an optional `+`, then at least one
/// ASCII digit and nothing else, with a value that fits in a `u32`.
pub open spec fn parse_u32_spec(s: Seq<char>) -> Option<u32> {
    let d = if s.len() > 0 && s[0] == '+' {
        s.drop_first()
    } else {
        s
    };
    if d.len() > 0 && all_digits(d) && decimal_value(d) <= u32::MAX {
        Some(decimal_value(d) as u32)
    } else {
        None
    }
}

proof fn lemma_decimal_value_nonneg(s: Seq<char>)
    requires
        all_digits(s),
    ensures
        decimal_value(s) >= 0,
    decreases s.len(),
{
    if s.len() > 0 {
        lemma_decimal_value_nonneg(s.drop_last());
    }
}

/// Whether `c` is an ASCII digit.
pub open spec fn is_digit(c: char) -> bool {
    '0' <= c && c <= '9'
}

/// How `parse_u32` reads a number, digit by digit: an empty text is no
/// number; a single digit is its value; a number followed by one more digit
/// is ten times the number plus that digit, while that fits in a `u32`, and
/// no number once it does not; a leading `+` is allowed once; any other
/// character makes the text no number.
pub proof fn lemma_parse_u32_digits(s: Seq<char>, c: char)
    ensures
        parse_u32_spec(seq![]) is None,
        is_digit(c) ==> parse_u32_spec(seq![c]) == Some((c as int - '0' as int) as u32),
        is_digit(c) && s.len() > 0 && (forall|k: int| 0 <= k < s.len() ==> is_digit(s[k]))
            ==> parse_u32_spec(s.push(c)) == match parse_u32_spec(s) {
            Some(v) => if 10 * v + (c as int - '0' as int) <= u32::MAX {
                Some((10 * v + (c as int - '0' as int)) as u32)
            } else {
                None
            },
            None => None::<u32>,
        },
        s.len() > 0 && s[0] != '+' ==> parse_u32_spec(seq!['+'] + s) == parse_u32_spec(s),
        s.len() > 0 && s[0] == '+' ==> parse_u32_spec(seq!['+'] + s) is None,
        !is_digit(c) && c != '+' ==> parse_u32_spec(seq![c] + s) is None,
        !is_digit(c) && s.len() > 0 ==> parse_u32_spec(s.push(c)) is None,
{
    let one = seq![c];
    if is_digit(c) {
        assert(one.drop_last() =~= Seq::<char>::empty());
        assert(one.last() == c);
        assert(one[0] != '+');
        assert(all_digits(one));
        assert(decimal_value(one) == 10 * decimal_value(Seq::<char>::empty()) + (c as int
            - '0' as int));
        assert(decimal_value(one) <= 9);
    }
    if is_digit(c) && s.len() > 0 && (forall|k: int| 0 <= k < s.len() ==> is_digit(s[k])) {
        let t = s.push(c);
        assert(t[0] == s[0]);
        assert(s[0] != '+');
        assert(t.drop_last() =~= s);
        assert(all_digits(s));
        assert(all_digits(t)) by {
            assert forall|k: int| 0 <= k < t.len() implies '0' <= #[trigger] t[k] <= '9' by {
                if k < s.len() {
                    assert(t[k] == s[k]);
                }
            }
        }
        lemma_decimal_value_nonneg(s);
    }
    if s.len() > 0 {
        let ps = seq!['+'] + s;
        assert(ps[0] == '+');
        assert(ps.drop_first() =~= s);
        if s[0] == '+' {
            assert(!all_digits(s)) by {
                assert(!('0' <= s[0] <= '9'));
            }
        }
    }
    if !is_digit(c) && c != '+' {
        let cs = seq![c] + s;
        assert(cs[0] == c);
        assert(!all_digits(cs)) by {
            assert(!('0' <= cs[0] <= '9'));
        }
    }
    if !is_digit(c) && s.len() > 0 {
        let t = s.push(c);
        assert(t[0] == s[0]);
        let d = if t.len() > 0 && t[0] == '+' {
            t.drop_first()
        } else {
            t
        };
        assert(d.len() > 0 && d.last() == c);
        assert(!all_digits(d)) by {
            assert(!('0' <= d[d.len() - 1] <= '9'));
        }
    }
}

/// Reads a decimal `u32` as `str::parse::<u32>` does.
pub fn parse_u32(s: &str) -> (r: Option<u32>)
    ensures
        r == parse_u32_spec(s@),
{
    let v = chars_of(s);
    let n: usize = v.len();
    let start: usize = if n > 0 && v[0] == '+' {
        1
    } else {
        0
    };
    let ghost d = v@.subrange(start as int, n as int);
    assert(d == (if v@.len() > 0 && v@[0] == '+' {
        v@.drop_first()
    } else {
        v@
    }));
    if start == n {
        return None;
    }
    let mut value: u64 = 0;
    let mut over = false;
    let mut i: usize = start;
    while i < n
        invariant
            start <= i <= n,
            n == v@.len(),
            d == v@.subrange(start as int, n as int),
            v@ == s@,
            d == (if v@.len() > 0 && v@[0] == '+' {
                v@.drop_first()
            } else {
                v@
            }),
            all_digits(v@.subrange(start as int, i as int)),
            !over ==> value == decimal_value(v@.subrange(start as int, i as int)),
            over ==> decimal_value(v@.subrange(start as int, i as int)) > u32::MAX,
            value <= u32::MAX,
        decreases n - i,
    {
        let c = v[i];
        if c < '0' || c > '9' {
            assert(!all_digits(d)) by {
                assert(d[i - start] == c);
            }
            return None;
        }
        let ghost prefix = v@.subrange(start as int, i as int);
        let ghost next = v@.subrange(start as int, i + 1);
        assert(next.drop_last() =~= prefix);
        assert(all_digits(next));
        proof {
            lemma_decimal_value_nonneg(prefix);
        }
        let digit: u64 = (c as u32 - '0' as u32) as u64;
        if !over {
            let nv: u64 = value * 10 + digit;
            if nv > u32::MAX as u64 {
                over = true;
            } else {
                value = nv;
            }
        }
        i += 1;
    }
    assert(v@.subrange(start as int, n as int) =~= d);
    if over {
        None
    } else {
        Some(value as u32)
    }
}

/// The command-line options.
#[derive(Clone, Debug)]
pub struct Options {
    /// `--csv <path>`: a FlightScope session export to replay.
    pub csv_path: Option<String>,
    /// `--connect <url>`: the relay to take live shots from.
    pub connect_url: Option<String>,
    /// `--screenshot <path>`: save a frame as PNG and exit.
    pub screenshot_path: Option<String>,
    /// `--screenshot-frame <n>`: how many frames to render before the
    /// screenshot.
    pub screenshot_frame: u32,
}

/// The options as plain values.
pub struct OptionsView {
    pub csv_path: Option<Seq<char>>,
    pub connect_url: Option<Seq<char>>,
    pub screenshot_path: Option<Seq<char>>,
    pub screenshot_frame: u32,
}

/// The text of an optional string.
pub open spec fn opt_view(o: Option<String>) -> Option<Seq<char>> {
    match o {
        Some(s) => Some(s@),
        None => None,
    }
}

impl Options {
    pub open spec fn view(&self) -> OptionsView {
        OptionsView {
            csv_path: opt_view(self.csv_path),
            connect_url: opt_view(self.connect_url),
            screenshot_path: opt_view(self.screenshot_path),
            screenshot_frame: self.screenshot_frame,
        }
    }
}

/// The options read from `args[i..]`, starting from `o`: each of
/// `--csv`, `--connect`, `--screenshot` and `--screenshot-frame` that has a
/// value after it sets its option (a later one wins) and skips the value;
/// an unreadable frame count reads as 1; any other argument is skipped.
pub open spec fn options_from(args: Seq<Seq<char>>, i: int, o: OptionsView) -> OptionsView
    decreases args.len() - i,
{
    if i < 0 || i >= args.len() {
        o
    } else if i + 1 < args.len() && args[i] == "--csv"@ {
        options_from(args, i + 2, OptionsView { csv_path: Some(args[i + 1]), ..o })
    } else if i + 1 < args.len() && args[i] == "--connect"@ {
        options_from(args, i + 2, OptionsView { connect_url: Some(args[i + 1]), ..o })
    } else if i + 1 < args.len() && args[i] == "--screenshot"@ {
        options_from(args, i + 2, OptionsView { screenshot_path: Some(args[i + 1]), ..o })
    } else if i + 1 < args.len() && args[i] == "--screenshot-frame"@ {
        let f = match parse_u32_spec(args[i + 1]) {
            Some(v) => v,
            None => 1,
        };
        options_from(args, i + 2, OptionsView { screenshot_frame: f, ..o })
    } else {
        options_from(args, i + 1, o)
    }
}

/// The options of a command line; `args[0]`, the program name, is not read.
pub open spec fn options_spec(args: Seq<Seq<char>>) -> OptionsView {
    options_from(
        args,
        1,
        OptionsView {
            csv_path: None,
            connect_url: None,
            screenshot_path: None,
            screenshot_frame: 1,
        },
    )
}

/// Reading `[p, a, b] + rest` from position `k + 2` reads the same as
/// reading `[p] + rest` from `k`.
proof fn lemma_options_shift(
    p: Seq<char>,
    a: Seq<char>,
    b: Seq<char>,
    rest: Seq<Seq<char>>,
    k: int,
    o: OptionsView,
)
    requires
        k >= 1,
    ensures
        options_from(seq![p, a, b] + rest, k + 2, o) == options_from(seq![p] + rest, k, o),
    decreases rest.len() + 1 - k,
{
    let long = seq![p, a, b] + rest;
    let short = seq![p] + rest;
    assert(long.len() == short.len() + 2);
    if k < short.len() {
        assert(long[k + 2] == short[k]);
        if k + 1 < short.len() {
            assert(long[k + 3] == short[k + 1]);
        }
        let k1 = k + 1;
        let k2 = k + 2;
        lemma_options_shift(p, a, b, rest, k1, o);
        if k1 < short.len() {
        lemma_options_shift(p, a, b, rest, k2, OptionsView { csv_path: Some(short[k1]), ..o });
        lemma_options_shift(p, a, b, rest, k2, OptionsView { connect_url: Some(short[k1]), ..o });
        lemma_options_shift(
            p,
            a,
            b,
            rest,
            k2,
            OptionsView { screenshot_path: Some(short[k1]), ..o },
        );
        let f = match parse_u32_spec(short[k1]) {
            Some(v) => v,
            None => 1,
        };
        lemma_options_shift(p, a, b, rest, k2, OptionsView { screenshot_frame: f, ..o });
        }
    }
}

/// An option given first, with its value, sets that option before the rest
/// of the command line is read, whatever the rest holds: the command line
/// `p, word, value, rest...` reads as `p, rest...` read from options in
/// which that option already has the value (so a later one still wins). A
/// frame count that is not a number reads as 1. An argument that is none of
/// the four option words is skipped. In particular `--screenshot <path>`
/// given last still takes the screenshot at that path.
pub proof fn lemma_leading_option(
    p: Seq<char>,
    value: Seq<char>,
    other: Seq<char>,
    rest: Seq<Seq<char>>,
    o: OptionsView,
)
    ensures
        options_from(seq![p, "--csv"@, value] + rest, 1, o) == options_from(
            seq![p] + rest,
            1,
            OptionsView { csv_path: Some(value), ..o },
        ),
        options_from(seq![p, "--connect"@, value] + rest, 1, o) == options_from(
            seq![p] + rest,
            1,
            OptionsView { connect_url: Some(value), ..o },
        ),
        options_from(seq![p, "--screenshot"@, value] + rest, 1, o) == options_from(
            seq![p] + rest,
            1,
            OptionsView { screenshot_path: Some(value), ..o },
        ),
        options_from(seq![p, "--screenshot-frame"@, value] + rest, 1, o) == options_from(
            seq![p] + rest,
            1,
            OptionsView {
                screenshot_frame: match parse_u32_spec(value) {
                    Some(v) => v,
                    None => 1,
                },
                ..o
            },
        ),
        other != "--csv"@ && other != "--connect"@ && other != "--screenshot"@ && other
            != "--screenshot-frame"@ ==> options_from(seq![p, other] + rest, 1, o)
            == options_from(seq![p] + rest, 1, o),
{
    let words = seq!["--csv"@, "--connect"@, "--screenshot"@, "--screenshot-frame"@];
    assert forall|w: int| 0 <= w < 4 implies ({
        let l = seq![p, #[trigger] words[w], value] + rest;
        l[1] == words[w] && l[2] == value && l.len() >= 3
    }) by {}
    lemma_option_words_differ();
    lemma_options_shift(p, "--csv"@, value, rest, 1, OptionsView { csv_path: Some(value), ..o });
    lemma_options_shift(
        p,
        "--connect"@,
        value,
        rest,
        1,
        OptionsView { connect_url: Some(value), ..o },
    );
    lemma_options_shift(
        p,
        "--screenshot"@,
        value,
        rest,
        1,
        OptionsView { screenshot_path: Some(value), ..o },
    );
    let f = match parse_u32_spec(value) {
        Some(v) => v,
        None => 1,
    };
    lemma_options_shift(
        p,
        "--screenshot-frame"@,
        value,
        rest,
        1,
        OptionsView { screenshot_frame: f, ..o },
    );
    let l2 = seq![p, other] + rest;
    let short = seq![p] + rest;
    assert(l2.len() == short.len() + 1);
    assert(l2[1] == other);
    lemma_options_shift_one(p, other, rest, 1, o);
}

/// Whether an argument is one of the four option words.
pub open spec fn is_option_word(a: Seq<char>) -> bool {
    a == "--csv"@ || a == "--connect"@ || a == "--screenshot"@ || a == "--screenshot-frame"@
}

proof fn lemma_option_words_differ()
    ensures
        "--csv"@ != "--connect"@,
        "--csv"@ != "--screenshot"@,
        "--csv"@ != "--screenshot-frame"@,
        "--connect"@ != "--screenshot"@,
        "--connect"@ != "--screenshot-frame"@,
        "--screenshot"@ != "--screenshot-frame"@,
{
    reveal_strlit("--csv");
    reveal_strlit("--connect");
    reveal_strlit("--screenshot");
    reveal_strlit("--screenshot-frame");
    assert("--csv"@[3] != "--connect"@[3]);
    assert("--csv"@.len() != "--screenshot"@.len());
    assert("--csv"@.len() != "--screenshot-frame"@.len());
    assert("--connect"@[2] != "--screenshot"@[2]);
    assert("--connect"@.len() != "--screenshot-frame"@.len());
    assert("--screenshot"@.len() != "--screenshot-frame"@.len());
}

proof fn lemma_trailing_screenshot_from(
    before: Seq<Seq<char>>,
    value: Seq<char>,
    i: int,
    o: OptionsView,
)
    requires
        before.len() >= 1,
        !is_option_word(before.last()),
        0 <= i <= before.len(),
    ensures
        options_from(before + seq!["--screenshot"@, value], i, o).screenshot_path == Some(value),
    decreases before.len() - i,
{
    lemma_option_words_differ();
    let ext = before + seq!["--screenshot"@, value];
    let n: int = before.len() as int;
    assert(ext.len() == n + 2);
    if i == n {
        assert(ext[n] == "--screenshot"@ && ext[n + 1] == value);
    } else {
        assert(ext[i] == before[i]);
        if i == n - 1 {
            assert(ext[i] == before.last());
            lemma_trailing_screenshot_from(before, value, i + 1, o);
        } else {
            assert(ext[i + 1] == before[i + 1]);
            let v1 = ext[i + 1];
            lemma_trailing_screenshot_from(before, value, i + 1, o);
            lemma_trailing_screenshot_from(before, value, i + 2, OptionsView { csv_path: Some(v1), ..o });
            lemma_trailing_screenshot_from(before, value, i + 2, OptionsView { connect_url: Some(v1), ..o });
            lemma_trailing_screenshot_from(
                before,
                value,
                i + 2,
                OptionsView { screenshot_path: Some(v1), ..o },
            );
            let f = match parse_u32_spec(v1) {
                Some(v) => v,
                None => 1,
            };
            lemma_trailing_screenshot_from(before, value, i + 2, OptionsView { screenshot_frame: f, ..o });
        }
    }
}

/// A screenshot path given last is taken: whatever comes before
/// `--screenshot <path>` at the end of the command line, as long as the
/// argument just before it is not an option word left waiting for its
/// value (the program name counts as an argument here), the screenshot is
/// saved at that path.
pub proof fn lemma_last_screenshot_taken(before: Seq<Seq<char>>, value: Seq<char>)
    requires
        before.len() >= 1,
        !is_option_word(before.last()),
    ensures
        options_spec(before + seq!["--screenshot"@, value]).screenshot_path == Some(value),
{
    let o0 = OptionsView { csv_path: None, connect_url: None, screenshot_path: None, screenshot_frame: 1 };
    lemma_trailing_screenshot_from(before, value, 1, o0);
}

/// Reading `[p, a] + rest` from position `k + 1` reads the same as reading
/// `[p] + rest` from `k`.
proof fn lemma_options_shift_one(p: Seq<char>, a: Seq<char>, rest: Seq<Seq<char>>, k: int, o: OptionsView)
    requires
        k >= 1,
    ensures
        options_from(seq![p, a] + rest, k + 1, o) == options_from(seq![p] + rest, k, o),
    decreases rest.len() + 1 - k,
{
    let long = seq![p, a] + rest;
    let short = seq![p] + rest;
    assert(long.len() == short.len() + 1);
    if k < short.len() {
        assert(long[k + 1] == short[k]);
        if k + 1 < short.len() {
            assert(long[k + 2] == short[k + 1]);
        }
        let k1 = k + 1;
        let k2 = k + 2;
        lemma_options_shift_one(p, a, rest, k1, o);
        if k1 < short.len() {
        lemma_options_shift_one(p, a, rest, k2, OptionsView { csv_path: Some(short[k1]), ..o });
        lemma_options_shift_one(p, a, rest, k2, OptionsView { connect_url: Some(short[k1]), ..o });
        lemma_options_shift_one(
            p,
            a,
            rest,
            k2,
            OptionsView { screenshot_path: Some(short[k1]), ..o },
        );
        let f = match parse_u32_spec(short[k1]) {
            Some(v) => v,
            None => 1,
        };
        lemma_options_shift_one(p, a, rest, k2, OptionsView { screenshot_frame: f, ..o });
        }
    }
}

/// Reads the command line.
pub fn parse_args(args: &[String]) -> (o: Options)
    ensures
        o.view() == options_spec(string_views(args@)),
{
    let ghost a = string_views(args@);
    let mut o = Options {
        csv_path: None,
        connect_url: None,
        screenshot_path: None,
        screenshot_frame: 1,
    };
    let n: usize = args.len();
    let mut i: usize = 1;
    while i < n
        invariant
            1 <= i,
            n == args@.len(),
            a == string_views(args@),
            options_from(a, i as int, o.view()) == options_spec(a),
        decreases n - i,
    {
        assert(a[i as int] == args@[i as int]@);
        if i + 1 < n {
            assert(a[i + 1] == args@[i + 1]@);
        }
        if i + 1 < n && same_text(args[i].as_str(), "--csv") {
            o.csv_path = Some(args[i + 1].clone());
            i += 2;
        } else if i + 1 < n && same_text(args[i].as_str(), "--connect") {
            o.connect_url = Some(args[i + 1].clone());
            i += 2;
        } else if i + 1 < n && same_text(args[i].as_str(), "--screenshot") {
            o.screenshot_path = Some(args[i + 1].clone());
            i += 2;
        } else if i + 1 < n && same_text(args[i].as_str(), "--screenshot-frame") {
            o.screenshot_frame = match parse_u32(args[i + 1].as_str()) {
                Some(v) => v,
                None => 1,
            };
            i += 2;
        } else {
            i += 1;
        }
    }
    o
}

/// Where the shown shots come from.
#[derive(Clone, Debug, PartialEq, Eq)]
pub enum Mode {
    /// Live shots from the relay at this URL.
    Live(String),
    /// The shot of this session export, replayed.
    Csv(String),
    /// The built-in example shot, replayed.
    Example,
}

/// The shot source: `--connect` wins over `--csv`; with neither, the
/// built-in example.
pub fn choose_mode(o: &Options) -> (m: Mode)
    ensures
        match o.connect_url {
            Some(u) => m matches Mode::Live(x) && x@ == u@,
            None => match o.csv_path {
                Some(p) => m matches Mode::Csv(x) && x@ == p@,
                None => m is Example,
            },
        },
{
    match &o.connect_url {
        Some(u) => Mode::Live(u.clone()),
        None => match &o.csv_path {
            Some(p) => Mode::Csv(p.clone()),
            None => Mode::Example,
        },
    }
}

impl Mode {
    /// Whether the animation replays forever: every source but the live
    /// relay.
    pub fn replays(&self) -> (b: bool)
        ensures
            b <==> !(self is Live),
    {
        match self {
            Mode::Live(_) => false,
            _ => true,
        }
    }
}

/// Counts rendered frames until the screenshot is due.
pub struct ScreenshotCounter {
    target: u32,
    count: u32,
    done: bool,
}

impl ScreenshotCounter {
    /// The number of frames to render before the screenshot.
    pub closed spec fn target(&self) -> u32 {
        self.target
    }

    /// The frames rendered so far.
    pub closed spec fn count(&self) -> u32 {
        self.count
    }

    /// Whether the screenshot has been taken.
    pub closed spec fn done(&self) -> bool {
        self.done
    }

    /// The counter's invariant: while waiting, the count has not passed
    /// the target.
    #[verifier::type_invariant]
    spec fn waiting_below_target(&self) -> bool {
        !self.done ==> (self.count == 0 || self.count < self.target)
    }

    /// A counter for a screenshot after `target` frames.
    pub fn new(target: u32) -> (c: ScreenshotCounter)
        ensures
            c.target() == target,
            c.count() == 0,
            !c.done(),
    {
        ScreenshotCounter { target, count: 0, done: false }
    }

    /// Counts one rendered frame; `true` exactly once, for the frame on
    /// which the count reaches the target.
    pub fn frame_rendered(&mut self) -> (capture: bool)
        ensures
            final(self).target() == old(self).target(),
            old(self).done() ==> !capture && final(self).count() == old(self).count()
                && final(self).done(),
            !old(self).done() ==> {
                &&& final(self).count() == old(self).count() + 1
                &&& capture == (final(self).count() >= final(self).target())
                &&& final(self).done() == capture
            },
    {
        proof {
            use_type_invariant(&*self);
        }
        if self.done {
            return false;
        }
        let count: u32 = self.count + 1;
        let capture = count >= self.target;
        *self = ScreenshotCounter { target: self.target, count, done: capture };
        capture
    }
}

/// A key that changes the window mode.
#[derive(Clone, Copy, PartialEq, Eq, Debug, Structural)]
pub enum Key {
    F11,
    Escape,
    Other,
}

/// The fullscreen state a key press asks for: F11 toggles it, Escape
/// leaves fullscreen, other keys change nothing.
pub fn fullscreen_request(key: Key, is_fullscreen: bool) -> (r: Option<bool>)
    ensures
        r == (match key {
            Key::F11 => Some(!is_fullscreen),
            Key::Escape => Some(false),
            Key::Other => None::<bool>,
        }),
{
    match key {
        Key::F11 => Some(!is_fullscreen),
        Key::Escape => Some(false),
        Key::Other => None,
    }
}

} // verus!

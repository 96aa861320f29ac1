//! RFC-4180 style parsing of one CSV record and of the FlightScope export.
use vstd::prelude::*;
use crate::text::{all_white, bare, chars_of, lemma_trim_shape, push_char, string_from, trim, trim_range};

verus! {

broadcast use vstd::seq::group_seq_axioms;

/// The text of a quoted field whose content starts at `i` (just after the
/// opening quote), paired with the index just past the closing quote.
/// A doubled quote stands for one quote; an unterminated field runs to the end.
pub open spec fn quoted_from(s: Seq<char>, i: int) -> (Seq<char>, int)
    decreases s.len() - i,
{
    if i < 0 || i >= s.len() {
        (seq![], i)
    } else if s[i] == '"' {
        if i + 1 < s.len() && s[i + 1] == '"' {
            let r = quoted_from(s, i + 2);
            (seq!['"'] + r.0, r.1)
        } else {
            (seq![], i + 1)
        }
    } else {
        let r = quoted_from(s, i + 1);
        (seq![s[i]] + r.0, r.1)
    }
}

/// The index of the first comma at or after `i`, or the length of `s`.
pub open spec fn unquoted_end(s: Seq<char>, i: int) -> int
    decreases s.len() - i,
{
    if i < 0 || i >= s.len() || s[i] == ',' {
        i
    } else {
        unquoted_end(s, i + 1)
    }
}

/// The field that starts at `i` and the index just past it.
pub open spec fn field_at(s: Seq<char>, i: int) -> (Seq<char>, int) {
    if 0 <= i < s.len() && s[i] == '"' {
        quoted_from(s, i + 1)
    } else {
        (s.subrange(i, unquoted_end(s, i)), unquoted_end(s, i))
    }
}

pub proof fn lemma_quoted_from_bounds(s: Seq<char>, i: int)
    requires
        0 <= i <= s.len(),
    ensures
        i <= quoted_from(s, i).1 <= s.len(),
    decreases s.len() - i,
{
    if i < s.len() {
        if s[i] == '"' {
            if i + 1 < s.len() && s[i + 1] == '"' {
                lemma_quoted_from_bounds(s, i + 2);
            }
        } else {
            lemma_quoted_from_bounds(s, i + 1);
        }
    }
}

pub proof fn lemma_unquoted_end_bounds(s: Seq<char>, i: int)
    requires
        0 <= i <= s.len(),
    ensures
        i <= unquoted_end(s, i) <= s.len(),
        unquoted_end(s, i) < s.len() ==> s[unquoted_end(s, i)] == ',',
        forall|k: int| i <= k < unquoted_end(s, i) ==> s[k] != ',',
    decreases s.len() - i,
{
    if i < s.len() && s[i] != ',' {
        lemma_unquoted_end_bounds(s, i + 1);
    }
}

/// A field starting before the end either ends at a comma or at the end,
/// and always moves forward unless it is an empty field right at a comma.
pub proof fn lemma_field_at_progress(s: Seq<char>, i: int)
    requires
        0 <= i < s.len(),
    ensures
        i <= field_at(s, i).1 <= s.len(),
        field_at(s, i).1 == i ==> s[i] == ',',
{
    if s[i] == '"' {
        lemma_quoted_from_bounds(s, i + 1);
    } else {
        lemma_unquoted_end_bounds(s, i);
    }
}

/// The fields read from position `i` to the end of the record.
/// After a field, a comma is skipped; a comma that ends the record
/// contributes one last empty field.
pub open spec fn fields_from(s: Seq<char>, i: int) -> Seq<Seq<char>>
    decreases s.len() - i,
{
    if i < 0 || i >= s.len() {
        seq![]
    } else {
        proof {
            lemma_field_at_progress(s, i);
        }
        let f = field_at(s, i);
        if f.1 < s.len() && s[f.1] == ',' {
            if f.1 + 1 == s.len() {
                seq![f.0, seq![]]
            } else {
                seq![f.0] + fields_from(s, f.1 + 1)
            }
        } else {
            seq![f.0] + fields_from(s, f.1)
        }
    }
}

/// The fields of a whole record.
pub open spec fn row_fields(s: Seq<char>) -> Seq<Seq<char>> {
    fields_from(s, 0)
}

/// The character sequences of a list of strings.
pub open spec fn string_views(v: Seq<String>) -> Seq<Seq<char>> {
    v.map_values(|x: String| x@)
}

/// Reads a quoted field whose content starts at `i`; returns its text and
/// the index just past the closing quote.
fn scan_quoted(s: &Vec<char>, i: usize) -> (r: (String, usize))
    requires
        i <= s.len(),
    ensures
        r.0@ == quoted_from(s@, i as int).0,
        r.1 == quoted_from(s@, i as int).1,
{
    let n: usize = s.len();
    let mut buf = String::new();
    let mut j: usize = i;
    let ghost q0 = quoted_from(s@, i as int);
    while j < n
        invariant_except_break
            i <= j <= n,
            n == s.len(),
            q0.0 == buf@ + quoted_from(s@, j as int).0,
            q0.1 == quoted_from(s@, j as int).1,
        ensures
            q0.0 == buf@,
            q0.1 == j,
        decreases n - j,
    {
        if s[j] == '"' {
            if j + 1 < n && s[j + 1] == '"' {
                proof {
                    assert(q0.0 == buf@.push('"') + quoted_from(s@, j + 2).0);
                }
                push_char(&mut buf, '"');
                j += 2;
            } else {
                proof {
                    assert(q0.0 == buf@);
                }
                j += 1;
                break;
            }
        } else {
            proof {
                assert(q0.0 == buf@.push(s@[j as int]) + quoted_from(s@, j + 1).0);
            }
            push_char(&mut buf, s[j]);
            j += 1;
        }
    }
    proof {
        if j >= n {
            assert(q0.0 == buf@);
        }
    }
    (buf, j)
}

/// The index of the first comma at or after `i`, or the length.
fn scan_unquoted(s: &Vec<char>, i: usize) -> (e: usize)
    requires
        i <= s.len(),
    ensures
        e == unquoted_end(s@, i as int),
{
    let n: usize = s.len();
    let mut j: usize = i;
    while j < n && s[j] != ','
        invariant
            i <= j <= n,
            n == s.len(),
            unquoted_end(s@, i as int) == unquoted_end(s@, j as int),
        decreases n - j,
    {
        j += 1;
    }
    j
}

/// Splits one CSV record into its fields. Fields are separated by commas;
/// a field that starts with a quote runs to the matching closing quote, and
/// inside it a doubled quote stands for one quote. A trailing comma yields a
/// final empty field; an empty record yields no fields.
pub fn parse_row(line: &str) -> (fields: Vec<String>)
    ensures
        string_views(fields@) == row_fields(line@),
{
    let s = chars_of(line);
    let n: usize = s.len();
    let mut fields: Vec<String> = Vec::new();
    let mut i: usize = 0;
    while i < n
        invariant
            i <= n,
            n == s.len(),
            s@ == line@,
            string_views(fields@) + fields_from(s@, i as int) == row_fields(s@),
        decreases n - i,
    {
        proof {
            lemma_field_at_progress(s@, i as int);
        }
        let ghost old_views = string_views(fields@);
        let ghost f = field_at(s@, i as int);
        if s[i] == '"' {
            let (buf, e) = scan_quoted(&s, i + 1);
            fields.push(buf);
            i = e;
        } else {
            let e: usize = scan_unquoted(&s, i);
            fields.push(string_from(&s, i, e));
            i = e;
        }
        assert(string_views(fields@) == old_views.push(f.0));
        if i < n && s[i] == ',' {
            i += 1;
            if i == n {
                fields.push(String::new());
                assert(string_views(fields@) == old_views.push(f.0).push(seq![]));
            }
        }
    }
    fields
}

/// Fields joined with commas.
pub open spec fn join_fields(fs: Seq<Seq<char>>) -> Seq<char>
    decreases fs.len(),
{
    if fs.len() == 0 {
        seq![]
    } else if fs.len() == 1 {
        fs[0]
    } else {
        fs[0] + seq![','] + join_fields(fs.drop_first())
    }
}

proof fn lemma_fields_from_nonempty(s: Seq<char>, i: int)
    requires
        0 <= i < s.len(),
    ensures
        fields_from(s, i).len() > 0,
{
    lemma_field_at_progress(s, i);
}

proof fn lemma_unquoted_suffix_roundtrip(s: Seq<char>, i: int)
    requires
        0 <= i <= s.len(),
        forall|k: int| 0 <= k < s.len() ==> s[k] != '"',
    ensures
        join_fields(fields_from(s, i)) == s.subrange(i, s.len() as int),
    decreases s.len() - i,
{
    if i < s.len() {
        lemma_field_at_progress(s, i);
        lemma_unquoted_end_bounds(s, i);
        let e = unquoted_end(s, i);
        let f = s.subrange(i, e);
        assert(field_at(s, i) == (f, e));
        if e < s.len() {
            if e + 1 == s.len() {
                assert(fields_from(s, i) == seq![f, Seq::<char>::empty()]);
                let two = seq![f, Seq::<char>::empty()];
                assert(two.drop_first() =~= seq![Seq::<char>::empty()]);
                assert(join_fields(two.drop_first()) == Seq::<char>::empty());
                assert(join_fields(two) == f + seq![','] + Seq::<char>::empty());
                assert(s.subrange(i, s.len() as int) =~= f + seq![','] + Seq::<char>::empty());
            } else {
                let rest = fields_from(s, e + 1);
                lemma_unquoted_suffix_roundtrip(s, e + 1);
                lemma_fields_from_nonempty(s, e + 1);
                assert(fields_from(s, i) == seq![f] + rest);
                assert((seq![f] + rest).drop_first() =~= rest);
                assert(s.subrange(i, s.len() as int) =~= f + seq![','] + s.subrange(e + 1, s.len() as int));
            }
        } else {
            assert(fields_from(s, e) == Seq::<Seq<char>>::empty());
            assert(fields_from(s, i) =~= seq![f]);
        }
    }
}

/// A record that holds no quote character is exactly its fields joined
/// with commas: splitting loses nothing.
pub proof fn lemma_unquoted_row_roundtrip(s: Seq<char>)
    requires
        forall|k: int| 0 <= k < s.len() ==> s[k] != '"',
    ensures
        join_fields(row_fields(s)) == s,
{
    lemma_unquoted_suffix_roundtrip(s, 0);
    assert(s.subrange(0, s.len() as int) =~= s);
}

/// `f` with every quote doubled.
pub open spec fn escape_quotes(f: Seq<char>) -> Seq<char>
    decreases f.len(),
{
    if f.len() == 0 {
        seq![]
    } else if f[0] == '"' {
        seq!['"', '"'] + escape_quotes(f.drop_first())
    } else {
        seq![f[0]] + escape_quotes(f.drop_first())
    }
}

/// `f` written as an RFC-4180 quoted field.
pub open spec fn quote_field(f: Seq<char>) -> Seq<char> {
    seq!['"'] + escape_quotes(f) + seq!['"']
}

/// The record that writes every field of `fs` quoted.
pub open spec fn quoted_record(fs: Seq<Seq<char>>) -> Seq<char> {
    join_fields(fs.map_values(|f: Seq<char>| quote_field(f)))
}

proof fn lemma_quoted_from_escaped(s: Seq<char>, i: int, f: Seq<char>)
    requires
        0 <= i,
        i + escape_quotes(f).len() + 1 <= s.len(),
        s.subrange(i, i + escape_quotes(f).len() + 1) == escape_quotes(f) + seq!['"'],
        i + escape_quotes(f).len() + 1 == s.len() || s[i + escape_quotes(f).len() + 1] != '"',
    ensures
        quoted_from(s, i) == (f, i + escape_quotes(f).len() + 1),
    decreases f.len(),
{
    let esc = escape_quotes(f);
    let end = i + esc.len() + 1;
    assert(s[i] == s.subrange(i, end)[0]);
    if f.len() == 0 {
        assert(s[i] == '"');
        assert(f =~= seq![]);
    } else {
        let g = f.drop_first();
        let eg = escape_quotes(g);
        if f[0] == '"' {
            assert(esc == seq!['"', '"'] + eg);
            assert(s[i + 1] == s.subrange(i, end)[1]);
            assert(s.subrange(i + 2, i + 2 + eg.len() + 1) =~= eg + seq!['"']) by {
                assert forall|k: int| 0 <= k < eg.len() + 1 implies
                    #[trigger] s.subrange(i + 2, i + 2 + eg.len() + 1)[k] == (eg + seq!['"'])[k] by {
                    assert(s.subrange(i, end)[k + 2] == (esc + seq!['"'])[k + 2]);
                }
            }
            lemma_quoted_from_escaped(s, i + 2, g);
            assert(f =~= seq!['"'] + g);
        } else {
            assert(esc == seq![f[0]] + eg);
            assert(s.subrange(i + 1, i + 1 + eg.len() + 1) =~= eg + seq!['"']) by {
                assert forall|k: int| 0 <= k < eg.len() + 1 implies
                    #[trigger] s.subrange(i + 1, i + 1 + eg.len() + 1)[k] == (eg + seq!['"'])[k] by {
                    assert(s.subrange(i, end)[k + 1] == (esc + seq!['"'])[k + 1]);
                }
            }
            lemma_quoted_from_escaped(s, i + 1, g);
            assert(f =~= seq![f[0]] + g);
        }
    }
}

proof fn lemma_quoted_record_suffix(s: Seq<char>, i: int, fs: Seq<Seq<char>>)
    requires
        0 <= i <= s.len(),
        fs.len() > 0,
        s.subrange(i, s.len() as int) == quoted_record(fs),
    ensures
        fields_from(s, i) == fs,
    decreases fs.len(),
{
    let q = fs.map_values(|f: Seq<char>| quote_field(f));
    let f0 = fs[0];
    let esc = escape_quotes(f0);
    let e = i + esc.len() + 2;
    let rec = quoted_record(fs);
    assert(q[0] == quote_field(f0));
    assert(rec.len() >= q[0].len());
    assert(rec.subrange(0, q[0].len() as int) =~= q[0]) by {
        if fs.len() > 1 {
            assert(rec == q[0] + seq![','] + join_fields(q.drop_first()));
        }
    }
    assert forall|k: int| 0 <= k < q[0].len() implies s[i + k] == #[trigger] q[0][k] by {
        assert(s.subrange(i, s.len() as int)[k] == rec[k]);
        assert(rec.subrange(0, q[0].len() as int)[k] == rec[k]);
    }
    assert(s[i] == q[0][0]);
    assert(s.subrange(i + 1, e) =~= esc + seq!['"']) by {
        assert forall|k: int| 0 <= k < esc.len() + 1 implies
            #[trigger] s.subrange(i + 1, e)[k] == (esc + seq!['"'])[k] by {
            assert(s[i + 1 + k] == q[0][k + 1]);
        }
    }
    if fs.len() == 1 {
        assert(rec == q[0]);
        lemma_quoted_from_escaped(s, i + 1, f0);
        assert(field_at(s, i) == (f0, e));
        assert(fields_from(s, e) == Seq::<Seq<char>>::empty());
        assert(fields_from(s, i) =~= fs);
    } else {
        let rest = fs.drop_first();
        assert(q.drop_first() =~= rest.map_values(|f: Seq<char>| quote_field(f)));
        assert(rec == q[0] + seq![','] + quoted_record(rest));
        assert(s[e] == rec[q[0].len() as int]);
        assert(s[e] == ',');
        lemma_quoted_from_escaped(s, i + 1, f0);
        assert(field_at(s, i) == (f0, e));
        let r1 = rest[0];
        let q1 = quoted_record(rest);
        assert(q1.len() >= 2) by {
            let qr = rest.map_values(|f: Seq<char>| quote_field(f));
            assert(qr[0] == quote_field(r1));
            if rest.len() > 1 {
                assert(q1 == qr[0] + seq![','] + join_fields(qr.drop_first()));
            }
        }
        assert(s.subrange(e + 1, s.len() as int) =~= q1) by {
            assert forall|k: int| 0 <= k < q1.len() implies
                #[trigger] s.subrange(e + 1, s.len() as int)[k] == q1[k] by {
                assert(s.subrange(i, s.len() as int)[q[0].len() + 1 + k] == rec[q[0].len() + 1 + k]);
            }
        }
        lemma_quoted_record_suffix(s, e + 1, rest);
        assert(fields_from(s, i) == seq![f0] + rest);
        assert(fs =~= seq![f0] + rest);
    }
}

/// Writing any non-empty list of fields as RFC-4180 quoted fields (quotes
/// doubled, fields separated by commas) and reading the record back gives
/// the same fields.
pub proof fn lemma_quoted_record_roundtrip(fs: Seq<Seq<char>>)
    requires
        fs.len() > 0,
    ensures
        row_fields(quoted_record(fs)) == fs,
{
    let s = quoted_record(fs);
    assert(s.subrange(0, s.len() as int) =~= s);
    lemma_quoted_record_suffix(s, 0, fs);
}

/// The number of columns of a FlightScope session export record.
pub const CSV_COLUMNS: usize = 41;

/// The trimmed text of column `idx`, or the empty text past the last column.
pub open spec fn field_text(v: Seq<Seq<char>>, idx: int) -> Seq<char> {
    if 0 <= idx < v.len() {
        trim(v[idx])
    } else {
        seq![]
    }
}

/// Column `idx` of a record without surrounding white space; a missing
/// column reads as the empty string.
pub fn field(v: &[String], idx: usize) -> (r: String)
    ensures
        r@ == field_text(string_views(v@), idx as int),
{
    if idx < v.len() {
        let c = chars_of(v[idx].as_str());
        assert(c@.subrange(0, c@.len() as int) =~= c@);
        trim_range(&c, 0, c.len())
    } else {
        String::new()
    }
}

/// A column read from a record is the field without the white space around
/// it: it neither starts nor ends with white space, and the field is that
/// text with only white space before and after it. A column past the end
/// of the record reads as empty.
pub proof fn lemma_field_text_trimmed(v: Seq<Seq<char>>, idx: int)
    ensures
        bare(field_text(v, idx)),
        0 <= idx < v.len() ==> exists|a: Seq<char>, b: Seq<char>|
            all_white(a) && all_white(b) && v[idx] == a + field_text(v, idx) + b,
        !(0 <= idx < v.len()) ==> field_text(v, idx).len() == 0,
{
    if 0 <= idx < v.len() {
        lemma_trim_shape(v[idx]);
    }
}

/// The index of the first line feed at or after `i`, or the length.
pub open spec fn newline_end(s: Seq<char>, i: int) -> int
    decreases s.len() - i,
{
    if i < 0 || i >= s.len() || s[i] == '\n' {
        i
    } else {
        newline_end(s, i + 1)
    }
}

pub proof fn lemma_newline_end_bounds(s: Seq<char>, i: int)
    requires
        0 <= i <= s.len(),
    ensures
        i <= newline_end(s, i) <= s.len(),
        newline_end(s, i) < s.len() ==> s[newline_end(s, i)] == '\n',
    decreases s.len() - i,
{
    if i < s.len() && s[i] != '\n' {
        lemma_newline_end_bounds(s, i + 1);
    }
}

/// The line that starts at `i`: up to the next line feed, without it and
/// without a carriage return just before it.
pub open spec fn line_at(s: Seq<char>, i: int) -> Seq<char> {
    let e = newline_end(s, i);
    if i < e < s.len() && s[e - 1] == '\r' {
        s.subrange(i, e - 1)
    } else {
        s.subrange(i, e)
    }
}

/// The lines from position `i` on, as `str::lines` splits them: a line
/// ends at `\n` or `\r\n`, and a final line ending adds no empty line.
pub open spec fn lines_from(s: Seq<char>, i: int) -> Seq<Seq<char>>
    decreases s.len() - i,
{
    if i < 0 || i >= s.len() {
        seq![]
    } else {
        proof {
            lemma_newline_end_bounds(s, i);
        }
        if newline_end(s, i) < s.len() {
            seq![line_at(s, i)] + lines_from(s, newline_end(s, i) + 1)
        } else {
            seq![line_at(s, i)]
        }
    }
}

/// The lines of a text.
pub open spec fn text_lines(s: Seq<char>) -> Seq<Seq<char>> {
    lines_from(s, 0)
}

/// The lines of `text`, as `str::lines` yields them.
pub fn lines_of(text: &str) -> (lines: Vec<String>)
    ensures
        string_views(lines@) == text_lines(text@),
{
    let s = chars_of(text);
    let n: usize = s.len();
    let mut lines: Vec<String> = Vec::new();
    let mut i: usize = 0;
    while i < n
        invariant
            i <= n,
            n == s.len(),
            s@ == text@,
            string_views(lines@) + lines_from(s@, i as int) == text_lines(s@),
        decreases n - i,
    {
        proof {
            lemma_newline_end_bounds(s@, i as int);
        }
        let ghost old_views = string_views(lines@);
        let mut e: usize = i;
        while e < n && s[e] != '\n'
            invariant
                i <= e <= n,
                n == s.len(),
                newline_end(s@, i as int) == newline_end(s@, e as int),
            decreases n - e,
        {
            e += 1;
        }
        let stop: usize = if e > i && e < n && s[e - 1] == '\r' {
            e - 1
        } else {
            e
        };
        lines.push(string_from(&s, i, stop));
        assert(string_views(lines@) == old_views.push(line_at(s@, i as int)));
        i = if e < n {
            e + 1
        } else {
            n
        };
    }
    lines
}

proof fn lemma_newline_end_extended(s: Seq<char>, tail: Seq<char>, i: int)
    requires
        0 <= i <= s.len(),
        tail.len() > 0,
        tail.last() == '\n',
        forall|k: int| 0 <= k < tail.len() - 1 ==> tail[k] != '\n',
    ensures
        newline_end(s + tail, i) == if newline_end(s, i) < s.len() {
            newline_end(s, i)
        } else {
            s.len() + tail.len() - 1
        },
    decreases s.len() + tail.len() - i,
{
    let t = s + tail;
    if i < s.len() {
        assert(t[i] == s[i]);
        if s[i] != '\n' {
            lemma_newline_end_extended(s, tail, i + 1);
        }
    } else {
        lemma_newline_end_tail(t, s.len() as int, i);
    }
}

proof fn lemma_newline_end_tail(t: Seq<char>, start: int, i: int)
    requires
        0 <= start <= i < t.len(),
        t.last() == '\n',
        forall|k: int| start <= k < t.len() - 1 ==> t[k] != '\n',
    ensures
        newline_end(t, i) == t.len() - 1,
    decreases t.len() - i,
{
    if i < t.len() - 1 {
        lemma_newline_end_tail(t, start, i + 1);
    }
}

proof fn lemma_lines_extended(s: Seq<char>, tail: Seq<char>, i: int)
    requires
        0 <= i < s.len(),
        s.last() != '\n',
        tail == seq!['\n'] && s.last() != '\r' || tail == seq!['\r', '\n'],
    ensures
        lines_from(s + tail, i) == lines_from(s, i),
    decreases s.len() - i,
{
    let t = s + tail;
    lemma_newline_end_bounds(s, i);
    lemma_newline_end_extended(s, tail, i);
    let e = newline_end(s, i);
    if e < s.len() {
        assert(e != s.len() - 1);
        assert(t.subrange(i, e) =~= s.subrange(i, e));
        if i < e {
            assert(t.subrange(i, e - 1) =~= s.subrange(i, e - 1));
            assert(t[e - 1] == s[e - 1]);
        }
        assert(line_at(t, i) == line_at(s, i));
        lemma_lines_extended(s, tail, e + 1);
    } else {
        if tail == seq!['\n'] {
            assert(t[s.len() - 1] == s.last());
            assert(t.subrange(i, s.len() as int) =~= s.subrange(i, s.len() as int));
        } else {
            assert(t[s.len() as int] == '\r');
            assert(t.subrange(i, s.len() as int) =~= s.subrange(i, s.len() as int));
        }
        assert(line_at(t, i) == line_at(s, i));
        assert(lines_from(t, newline_end(t, i) + 1) == Seq::<Seq<char>>::empty());
    }
}

/// A final line ending adds no line: a text that does not end with a line
/// feed has the same lines with `\r\n` appended, and, when it does not end
/// with a carriage return either, with `\n` appended.
pub proof fn lemma_final_line_ending(s: Seq<char>)
    requires
        s.len() > 0,
        s.last() != '\n',
    ensures
        text_lines(s + seq!['\r', '\n']) == text_lines(s),
        s.last() != '\r' ==> text_lines(s + seq!['\n']) == text_lines(s),
{
    lemma_lines_extended(s, seq!['\r', '\n'], 0);
    if s.last() != '\r' {
        lemma_lines_extended(s, seq!['\n'], 0);
    }
}

/// The values of the first data record of a FlightScope session export:
/// `None` when the text has fewer than two lines or the second line has
/// fewer than `CSV_COLUMNS` fields.
pub open spec fn export_values(content: Seq<char>) -> Option<Seq<Seq<char>>> {
    let lines = text_lines(content);
    if lines.len() < 2 || row_fields(lines[1]).len() < CSV_COLUMNS {
        None
    } else {
        Some(row_fields(lines[1]))
    }
}

/// Whether `s` holds no line feed.
pub open spec fn no_line_feed(s: Seq<char>) -> bool {
    forall|k: int| 0 <= k < s.len() ==> s[k] != '\n'
}

proof fn lemma_newline_end_at(s: Seq<char>, i: int, j: int)
    requires
        0 <= i <= j <= s.len(),
        forall|k: int| i <= k < j ==> s[k] != '\n',
        j == s.len() || s[j] == '\n',
    ensures
        newline_end(s, i) == j,
    decreases j - i,
{
    if i < j {
        lemma_newline_end_at(s, i + 1, j);
    }
}

proof fn lemma_newline_end_shift(p: Seq<char>, rest: Seq<char>, i: int)
    requires
        0 <= i <= rest.len(),
    ensures
        newline_end(p + rest, p.len() + i) == p.len() + newline_end(rest, i),
    decreases rest.len() - i,
{
    let c = p + rest;
    if i < rest.len() {
        assert(c[p.len() + i] == rest[i]);
        if rest[i] != '\n' {
            lemma_newline_end_shift(p, rest, i + 1);
        }
    }
}

proof fn lemma_lines_shift(p: Seq<char>, rest: Seq<char>, i: int)
    requires
        0 <= i,
    ensures
        lines_from(p + rest, p.len() + i) == lines_from(rest, i),
    decreases rest.len() - i,
{
    let c = p + rest;
    let off = p.len() as int;
    if i < rest.len() {
        lemma_newline_end_shift(p, rest, i);
        lemma_newline_end_bounds(rest, i);
        let e = newline_end(rest, i);
        assert(c.subrange(off + i, off + e) =~= rest.subrange(i, e));
        if i < e {
            assert(c[off + e - 1] == rest[e - 1]);
            assert(c.subrange(off + i, off + e - 1) =~= rest.subrange(i, e - 1));
        }
        assert(line_at(c, off + i) == line_at(rest, i));
        if e < rest.len() {
            lemma_lines_shift(p, rest, e + 1);
        }
    }
}

/// A line without its line ending: a carriage return just before the line
/// feed is part of the ending.
pub open spec fn without_cr(x: Seq<char>) -> Seq<char> {
    if x.len() > 0 && x.last() == '\r' {
        x.drop_last()
    } else {
        x
    }
}

/// How a text splits into lines, one line at a time: a text that starts
/// with a line `x` (holding no line feed) and a line feed has the line `x`,
/// without a carriage return that ends it, and then the lines of what
/// follows; a last line with no line feed after it is kept as it stands;
/// an empty text has no lines.
pub proof fn lemma_lines_one_by_one(x: Seq<char>, rest: Seq<char>)
    requires
        no_line_feed(x),
    ensures
        text_lines(x + seq!['\n'] + rest) == seq![without_cr(x)] + text_lines(rest),
        x.len() > 0 ==> text_lines(x) == seq![x],
        text_lines(Seq::<char>::empty()) == Seq::<Seq<char>>::empty(),
{
    let p = x + seq!['\n'];
    let c = p + rest;
    assert(x + seq!['\n'] + rest == c);
    let h = x.len() as int;
    assert forall|k: int| 0 <= k < h implies c[k] != '\n' by {
        assert(c[k] == x[k]);
    }
    assert(c[h] == '\n');
    lemma_newline_end_at(c, 0, h);
    if h > 0 {
        assert(c[h - 1] == x.last());
        assert(c.subrange(0, h - 1) =~= x.drop_last());
    }
    assert(c.subrange(0, h) =~= x);
    assert(line_at(c, 0) == without_cr(x));
    lemma_lines_shift(p, rest, 0);
    assert(p.len() + 0 == h + 1);
    if x.len() > 0 {
        lemma_newline_end_at(x, 0, h);
        assert(x.subrange(0, h) =~= x);
    }
}

/// The record an export is read from is the one on its second line, the
/// line after the header, whatever follows it: for a header and a record
/// line (neither holding a line feed, the record not ending with a carriage
/// return), the text `header \n record` followed by nothing or by a line
/// feed and any further lines gives the record's fields when it has at
/// least `CSV_COLUMNS` of them, and nothing otherwise. Later shots never
/// replace the first one.
pub proof fn lemma_export_reads_second_line(
    header: Seq<char>,
    record: Seq<char>,
    rest: Seq<char>,
)
    requires
        no_line_feed(header),
        no_line_feed(record),
        record.len() > 0,
        record.last() != '\r',
        rest.len() == 0 || rest[0] == '\n',
    ensures
        export_values(header + seq!['\n'] + record + rest) == if row_fields(record).len()
            >= CSV_COLUMNS {
            Some(row_fields(record))
        } else {
            None::<Seq<Seq<char>>>
        },
{
    let c = header + seq!['\n'] + record + rest;
    let h = header.len() as int;
    let r = record.len() as int;
    assert(c.len() == h + 1 + r + rest.len());
    assert forall|k: int| 0 <= k < h implies c[k] != '\n' by {
        assert(c[k] == header[k]);
    }
    assert(c[h] == '\n');
    lemma_newline_end_at(c, 0, h);
    assert forall|k: int| h + 1 <= k < h + 1 + r implies c[k] != '\n' by {
        assert(c[k] == record[k - h - 1]);
    }
    if rest.len() > 0 {
        assert(c[h + 1 + r] == rest[0]);
    }
    lemma_newline_end_at(c, h + 1, h + 1 + r);
    assert(c[h + r] == record.last());
    assert(c.subrange(h + 1, h + 1 + r) =~= record);
    assert(line_at(c, h + 1) == record);
    let tail = if h + 1 + r < c.len() {
        lines_from(c, h + 1 + r + 1)
    } else {
        Seq::<Seq<char>>::empty()
    };
    assert(lines_from(c, h + 1) == seq![record] + tail);
    assert(text_lines(c) == seq![line_at(c, 0)] + (seq![record] + tail));
    assert(text_lines(c)[1] == record);
}

/// The fields of the record on the second line of an export, the line
/// after the header.
pub fn export_record(content: &str) -> (r: Option<Vec<String>>)
    ensures
        r matches Some(v) ==> export_values(content@) == Some(string_views(v@)),
        r is None <==> export_values(content@) is None,
{
    let lines = lines_of(content);
    if lines.len() < 2 {
        return None;
    }
    assert(string_views(lines@)[1] == lines@[1]@);
    let values = parse_row(lines[1].as_str());
    if values.len() < CSV_COLUMNS {
        return None;
    }
    Some(values)
}

/// The index of the first `c` in `s`, or the length when there is none.
pub open spec fn first_index(s: Seq<char>, c: char, i: int) -> int
    decreases s.len() - i,
{
    if i < 0 || i >= s.len() || s[i] == c {
        i
    } else {
        first_index(s, c, i + 1)
    }
}

/// `s` without any run of `c` at its end.
pub open spec fn strip_trailing(s: Seq<char>, c: char) -> Seq<char>
    decreases s.len(),
{
    if s.len() > 0 && s.last() == c {
        strip_trailing(s.drop_last(), c)
    } else {
        s
    }
}

/// A length column such as `21' 0"`, split into its numeric texts.
#[derive(Clone, Debug, PartialEq, Eq)]
pub enum FeetInches {
    /// The column is empty.
    Empty,
    /// Feet before the apostrophe, inches after it (closing quotes and
    /// white space removed).
    Split { feet: String, inches: String },
    /// No apostrophe: the whole text is one number.
    Whole(String),
}

/// The parts of a feet-and-inches column; each part is the text of a
/// number.
pub open spec fn feet_inches_spec(s: Seq<char>, r: FeetInches) -> bool {
    let pos = first_index(s, '\'', 0);
    if s.len() == 0 {
        r is Empty
    } else if pos < s.len() {
        r matches FeetInches::Split { feet, inches } && feet@ == s.subrange(0, pos) && inches@
            == trim(strip_trailing(s.subrange(pos + 1, s.len() as int), '"'))
    } else {
        r matches FeetInches::Whole(w) && w@ == s
    }
}

proof fn lemma_first_index(s: Seq<char>, c: char, i: int)
    requires
        0 <= i <= s.len(),
    ensures
        i <= first_index(s, c, i) <= s.len(),
        first_index(s, c, i) < s.len() ==> s[first_index(s, c, i)] == c,
        forall|k: int| i <= k < first_index(s, c, i) ==> s[k] != c,
    decreases s.len() - i,
{
    if i < s.len() && s[i] != c {
        lemma_first_index(s, c, i + 1);
    }
}

proof fn lemma_strip_trailing(s: Seq<char>, c: char) -> (j: int)
    ensures
        0 <= j <= s.len(),
        strip_trailing(s, c) == s.subrange(0, j),
        forall|k: int| j <= k < s.len() ==> s[k] == c,
        j > 0 ==> s[j - 1] != c,
    decreases s.len(),
{
    if s.len() > 0 && s.last() == c {
        let j = lemma_strip_trailing(s.drop_last(), c);
        assert(s.drop_last().subrange(0, j) =~= s.subrange(0, j));
        if j > 0 {
            assert(s[j - 1] == s.drop_last()[j - 1]);
        }
        assert forall|k: int| j <= k < s.len() implies s[k] == c by {
            if k < s.len() - 1 {
                assert(s[k] == s.drop_last()[k]);
            }
        }
        j
    } else {
        assert(s.subrange(0, s.len() as int) =~= s);
        s.len() as int
    }
}

/// Whether every character of `s` is a double quote.
pub open spec fn all_double_quotes(s: Seq<char>) -> bool {
    forall|k: int| 0 <= k < s.len() ==> s[k] == '"'
}

/// What a feet-and-inches column holds, in terms of its text: an empty
/// column is `Empty`; a column with an apostrophe is the feet, holding no
/// apostrophe, then the apostrophe, then the inches with only white space
/// around them and closing double quotes after them, the inches themselves
/// bare; any other column is one `Whole` number, the column itself.
pub proof fn lemma_feet_inches_parts(s: Seq<char>, r: FeetInches)
    requires
        feet_inches_spec(s, r),
    ensures
        r is Empty <==> s.len() == 0,
        r matches FeetInches::Split { feet, inches } ==> !feet@.contains('\'') && bare(inches@)
            && exists|w0: Seq<char>, w1: Seq<char>, q: Seq<char>|
            all_white(w0) && all_white(w1) && all_double_quotes(q) && s == feet@ + seq!['\'']
                + w0 + inches@ + w1 + q,
        r matches FeetInches::Whole(w) ==> w@ == s && !s.contains('\''),
{
    lemma_first_index(s, '\'', 0);
    let pos = first_index(s, '\'', 0);
    if s.len() > 0 && pos < s.len() {
        let rest = s.subrange(pos + 1, s.len() as int);
        let j = lemma_strip_trailing(rest, '"');
        let x = strip_trailing(rest, '"');
        lemma_trim_shape(x);
        let inch = trim(x);
        let (w0, w1) = choose|a: Seq<char>, b: Seq<char>| all_white(a) && all_white(b) && x == a + inch + b;
        let q = rest.subrange(j, rest.len() as int);
        assert(all_double_quotes(q)) by {
            assert forall|k: int| 0 <= k < q.len() implies q[k] == '"' by {
                assert(q[k] == rest[j + k]);
            }
        }
        assert(rest =~= x + q);
        assert(s =~= s.subrange(0, pos) + seq!['\''] + rest);
        assert(s == s.subrange(0, pos) + seq!['\''] + w0 + inch + w1 + q);
        assert(!s.subrange(0, pos).contains('\'')) by {
            if s.subrange(0, pos).contains('\'') {
                let k = choose|k: int| 0 <= k < pos && s.subrange(0, pos)[k] == '\'';
                assert(s[k] == '\'');
            }
        }
    } else if s.len() > 0 {
        assert(!s.contains('\'')) by {
            if s.contains('\'') {
                let k = choose|k: int| 0 <= k < s.len() && s[k] == '\'';
                assert(s[k] != '\'');
            }
        }
    }
}

/// Splits column `idx` of an export record written as feet and inches.
pub fn feet_inches(v: &[String], idx: usize) -> (r: FeetInches)
    ensures
        feet_inches_spec(field_text(string_views(v@), idx as int), r),
{
    let f = field(v, idx);
    let s = chars_of(f.as_str());
    let n: usize = s.len();
    if n == 0 {
        return FeetInches::Empty;
    }
    let mut pos: usize = 0;
    while pos < n && s[pos] != '\''
        invariant
            pos <= n,
            n == s.len(),
            first_index(s@, '\'', 0) == first_index(s@, '\'', pos as int),
        decreases n - pos,
    {
        pos += 1;
    }
    if pos == n {
        return FeetInches::Whole(f);
    }
    let feet = string_from(&s, 0, pos);
    let mut end: usize = n;
    while end > pos + 1 && s[end - 1] == '"'
        invariant
            pos + 1 <= end <= n,
            n == s.len(),
            strip_trailing(s@.subrange(pos + 1, n as int), '"') == strip_trailing(
                s@.subrange(pos + 1, end as int),
                '"',
            ),
        decreases end,
    {
        assert(s@.subrange(pos + 1, end as int).drop_last() =~= s@.subrange(
            pos + 1,
            end - 1,
        ));
        end -= 1;
    }
    assert(strip_trailing(s@.subrange(pos + 1, end as int), '"') == s@.subrange(
        pos + 1,
        end as int,
    ));
    let inches = trim_range(&s, pos + 1, end);
    FeetInches::Split { feet, inches }
}

/// A direction column such as `3.8 R` or `6.4 L`.
#[derive(Clone, Debug, PartialEq, Eq)]
pub enum Direction {
    /// The column is empty.
    Empty,
    /// The number before a trailing ` R`: to the right, positive.
    Right(String),
    /// The number before a trailing ` L`: to the left, negative.
    Left(String),
    /// No side marker: the whole text is one signed number.
    Plain(String),
}

/// Whether `s` ends with a space and then `side`.
pub open spec fn ends_with_side(s: Seq<char>, side: char) -> bool {
    s.len() >= 2 && s[s.len() - 2] == ' ' && s[s.len() - 1] == side
}

/// The parts of a direction column.
pub open spec fn direction_spec(s: Seq<char>, r: Direction) -> bool {
    if s.len() == 0 {
        r is Empty
    } else if ends_with_side(s, 'R') {
        r matches Direction::Right(t) && t@ == s.subrange(0, s.len() - 2)
    } else if ends_with_side(s, 'L') {
        r matches Direction::Left(t) && t@ == s.subrange(0, s.len() - 2)
    } else {
        r matches Direction::Plain(t) && t@ == s
    }
}

/// What a direction column holds, in terms of its text: an empty column is
/// `Empty`; a column ending with ` R` is `Right` of the text before it, one
/// ending with ` L` is `Left` of the text before it; any other column is
/// `Plain`, the column itself. Marking the number again gives back the
/// column.
pub proof fn lemma_direction_marks(s: Seq<char>, r: Direction)
    requires
        direction_spec(s, r),
    ensures
        r is Empty <==> s.len() == 0,
        r matches Direction::Right(t) ==> s == t@ + seq![' ', 'R'],
        r matches Direction::Left(t) ==> s == t@ + seq![' ', 'L'],
        r matches Direction::Plain(t) ==> s == t@ && !(s.len() >= 2 && s.subrange(
            s.len() - 2,
            s.len() as int,
        ) == seq![' ', 'R']) && !(s.len() >= 2 && s.subrange(s.len() - 2, s.len() as int) == seq![
            ' ',
            'L',
        ]),
{
    if s.len() >= 2 {
        let e = s.subrange(s.len() - 2, s.len() as int);
        assert(e[0] == s[s.len() - 2] && e[1] == s[s.len() - 1]);
        if ends_with_side(s, 'R') {
            assert(s =~= s.subrange(0, s.len() - 2) + seq![' ', 'R']);
        } else if ends_with_side(s, 'L') {
            assert(s =~= s.subrange(0, s.len() - 2) + seq![' ', 'L']);
        } else {
            assert(e != seq![' ', 'R']) by {
                if e == seq![' ', 'R'] {
                    assert(e[0] == ' ' && e[1] == 'R');
                }
            }
            assert(e != seq![' ', 'L']) by {
                if e == seq![' ', 'L'] {
                    assert(e[0] == ' ' && e[1] == 'L');
                }
            }
        }
    }
}

/// Splits column `idx` of an export record written as a distance or angle
/// with a side marker.
pub fn direction(v: &[String], idx: usize) -> (r: Direction)
    ensures
        direction_spec(field_text(string_views(v@), idx as int), r),
{
    let f = field(v, idx);
    let s = chars_of(f.as_str());
    let n: usize = s.len();
    if n == 0 {
        return Direction::Empty;
    }
    if n >= 2 && s[n - 2] == ' ' && s[n - 1] == 'R' {
        return Direction::Right(string_from(&s, 0, n - 2));
    }
    if n >= 2 && s[n - 2] == ' ' && s[n - 1] == 'L' {
        return Direction::Left(string_from(&s, 0, n - 2));
    }
    Direction::Plain(f)
}

/// The columns of an export record that the shot display reads, as text.
/// Plain numbers are the trimmed column text; lengths in feet and inches
/// and values with a side marker are split into their parts.
#[derive(Clone, Debug)]
pub struct ExportShot {
    pub player: String,
    pub timestamp: String,
    pub carry_yds: String,
    pub roll_ft: FeetInches,
    pub roll_yds: String,
    pub total_ft: FeetInches,
    pub total_yds: String,
    pub lateral_yds: Direction,
    pub curve_dist_yds: Direction,
    pub smash: String,
    pub roll_ft_s_ft: String,
    pub roll_speed_mph: String,
    pub flight_time_sec: String,
    pub skid_distance_ft: String,
    pub spin_rpm: String,
    pub skid_ft_s_ft: String,
    pub spin_axis_deg: Direction,
    pub club_path_deg: Direction,
    pub ball_speed_mph: String,
    pub launch_speed_mph: String,
    pub v_plane_deg: String,
    pub h_plane_deg: Direction,
    pub launch_v_deg: String,
    pub launch_h_deg: Direction,
    pub ball_direction_deg: Direction,
    pub height_ft: String,
    pub ftt_deg: Direction,
    pub dynamic_loft_deg: String,
    pub spin_loft_deg: String,
    pub club_speed_mph: String,
    pub descent_v_deg: String,
    pub aoa_deg: String,
    pub low_point_in: String,
    pub ftp_deg: Direction,
    pub club: String,
    pub lateral_impact_in: String,
    pub vertical_impact_in: String,
    pub shot_type: String,
}

/// Whether `e` holds the columns of the record `v`.
pub open spec fn export_shot_spec(v: Seq<Seq<char>>, e: ExportShot) -> bool {
    &&& e.player@ == field_text(v, 1)
    &&& e.timestamp@ == field_text(v, 2)
    &&& e.carry_yds@ == field_text(v, 3)
    &&& feet_inches_spec(field_text(v, 4), e.roll_ft)
    &&& e.roll_yds@ == field_text(v, 5)
    &&& feet_inches_spec(field_text(v, 6), e.total_ft)
    &&& e.total_yds@ == field_text(v, 7)
    &&& direction_spec(field_text(v, 8), e.lateral_yds)
    &&& direction_spec(field_text(v, 9), e.curve_dist_yds)
    &&& e.smash@ == field_text(v, 10)
    &&& e.roll_ft_s_ft@ == field_text(v, 11)
    &&& e.roll_speed_mph@ == field_text(v, 13)
    &&& e.flight_time_sec@ == field_text(v, 14)
    &&& e.skid_distance_ft@ == field_text(v, 15)
    &&& e.spin_rpm@ == field_text(v, 16)
    &&& e.skid_ft_s_ft@ == field_text(v, 17)
    &&& direction_spec(field_text(v, 18), e.spin_axis_deg)
    &&& direction_spec(field_text(v, 19), e.club_path_deg)
    &&& e.ball_speed_mph@ == field_text(v, 20)
    &&& e.launch_speed_mph@ == field_text(v, 21)
    &&& e.v_plane_deg@ == field_text(v, 22)
    &&& direction_spec(field_text(v, 23), e.h_plane_deg)
    &&& e.launch_v_deg@ == field_text(v, 24)
    &&& direction_spec(field_text(v, 25), e.launch_h_deg)
    &&& direction_spec(field_text(v, 26), e.ball_direction_deg)
    &&& e.height_ft@ == field_text(v, 27)
    &&& direction_spec(field_text(v, 28), e.ftt_deg)
    &&& e.dynamic_loft_deg@ == field_text(v, 29)
    &&& e.spin_loft_deg@ == field_text(v, 30)
    &&& e.club_speed_mph@ == field_text(v, 31)
    &&& e.descent_v_deg@ == field_text(v, 33)
    &&& e.aoa_deg@ == field_text(v, 34)
    &&& e.low_point_in@ == field_text(v, 35)
    &&& direction_spec(field_text(v, 36), e.ftp_deg)
    &&& e.club@ == field_text(v, 37)
    &&& e.lateral_impact_in@ == field_text(v, 38)
    &&& e.vertical_impact_in@ == field_text(v, 39)
    &&& e.shot_type@ == field_text(v, 40)
}

/// Reads the shot of a FlightScope session export: `None` when the text
/// has no data record or the record is too short (see `export_values`);
/// otherwise the columns of the record on the second line.
pub fn parse_export(content: &str) -> (r: Option<ExportShot>)
    ensures
        r is None <==> export_values(content@) is None,
        r matches Some(e) ==> export_shot_spec(export_values(content@)->Some_0, e),
{
    let values = match export_record(content) {
        Some(v) => v,
        None => return None,
    };
    Some(ExportShot {
        player: field(&values, 1),
        timestamp: field(&values, 2),
        carry_yds: field(&values, 3),
        roll_ft: feet_inches(&values, 4),
        roll_yds: field(&values, 5),
        total_ft: feet_inches(&values, 6),
        total_yds: field(&values, 7),
        lateral_yds: direction(&values, 8),
        curve_dist_yds: direction(&values, 9),
        smash: field(&values, 10),
        roll_ft_s_ft: field(&values, 11),
        roll_speed_mph: field(&values, 13),
        flight_time_sec: field(&values, 14),
        skid_distance_ft: field(&values, 15),
        spin_rpm: field(&values, 16),
        skid_ft_s_ft: field(&values, 17),
        spin_axis_deg: direction(&values, 18),
        club_path_deg: direction(&values, 19),
        ball_speed_mph: field(&values, 20),
        launch_speed_mph: field(&values, 21),
        v_plane_deg: field(&values, 22),
        h_plane_deg: direction(&values, 23),
        launch_v_deg: field(&values, 24),
        launch_h_deg: direction(&values, 25),
        ball_direction_deg: direction(&values, 26),
        height_ft: field(&values, 27),
        ftt_deg: direction(&values, 28),
        dynamic_loft_deg: field(&values, 29),
        spin_loft_deg: field(&values, 30),
        club_speed_mph: field(&values, 31),
        descent_v_deg: field(&values, 33),
        aoa_deg: field(&values, 34),
        low_point_in: field(&values, 35),
        ftp_deg: direction(&values, 36),
        club: field(&values, 37),
        lateral_impact_in: field(&values, 38),
        vertical_impact_in: field(&values, 39),
        shot_type: field(&values, 40),
    })
}

} // verus!

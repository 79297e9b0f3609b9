//! Reading entries back in: the CSV and JSON that `tk export` writes, and the
//! CSV of the older tool with its own column names. The derived columns
//! (gross, net, break) are read past and dropped: they follow from the break
//! tiers, and a file's copy of them must not contradict the configuration.
use crate::date::{Date, Time, chrono_hm_text, chrono_ymd_text};
use crate::text::{
    chars_of, decimal, is_ws, lead_ws, lemma_lead_exact, push_char, push_decimal, push_str,
    string_of, trim, trim_bounds, trimmed,
};
use vstd::prelude::*;

verus! {

// ---------------------------------------------------------------------------
// Writing fields
// ---------------------------------------------------------------------------

/// `s` with every `"` doubled.
pub open spec fn doubled(s: Seq<char>) -> Seq<char>
    decreases s.len(),
{
    if s.len() == 0 {
        Seq::empty()
    } else {
        doubled(s.drop_last()) + if s.last() == '"' {
            seq!['"', '"']
        } else {
            seq![s.last()]
        }
    }
}

/// Whether a CSV field must be quoted: it holds a comma, a quote or a newline.
pub open spec fn needs_quotes(s: Seq<char>) -> bool {
    exists|i: int| 0 <= i < s.len() && (s[i] == ',' || s[i] == '"' || s[i] == '\n')
}

/// A CSV field: as it is, or in quotes with its quotes doubled.
pub open spec fn csv_field(s: Seq<char>) -> Seq<char> {
    if needs_quotes(s) {
        seq!['"'] + doubled(s) + seq!['"']
    } else {
        s
    }
}

/// `s` as one CSV field: quoted, with `"` doubled, when it holds a comma, a
/// quote or a newline; as it is otherwise.
pub fn csv_quote(s: &str) -> (r: String)
    ensures
        r@ == csv_field(s@),
{
    let v = chars_of(s);
    let mut quote = false;
    let mut i: usize = 0;
    while i < v.len()
        invariant
            i <= v.len(),
            v@ == s@,
            quote == exists|j: int| 0 <= j < i && (v@[j] == ',' || v@[j] == '"' || v@[j] == '\n'),
        decreases v.len() - i,
    {
        if v[i] == ',' || v[i] == '"' || v[i] == '\n' {
            quote = true;
        }
        i += 1;
    }
    if !quote {
        return String::from_str(s);
    }
    let mut r = String::new();
    push_char(&mut r, '"');
    let mut i: usize = 0;
    while i < v.len()
        invariant
            i <= v.len(),
            r@ == seq!['"'] + doubled(v@.take(i as int)),
        decreases v.len() - i,
    {
        proof {
            assert(v@.take(i + 1).drop_last() =~= v@.take(i as int));
            assert(v@.take(i + 1).last() == v@[i as int]);
        }
        if v[i] == '"' {
            push_char(&mut r, '"');
            push_char(&mut r, '"');
        } else {
            push_char(&mut r, v[i]);
        }
        i += 1;
        proof {
            assert(r@ =~= seq!['"'] + doubled(v@.take(i as int)));
        }
    }
    push_char(&mut r, '"');
    proof {
        assert(v@.take(v@.len() as int) =~= v@);
        assert(r@ =~= seq!['"'] + doubled(s@) + seq!['"']);
    }
    r
}

/// A lowercase hexadecimal digit.
pub open spec fn hex_char(d: int) -> char {
    if d < 10 {
        crate::text::digit_char(d)
    } else if d == 10 {
        'a'
    } else if d == 11 {
        'b'
    } else if d == 12 {
        'c'
    } else if d == 13 {
        'd'
    } else if d == 14 {
        'e'
    } else {
        'f'
    }
}

/// How a character is written inside a JSON string.
pub open spec fn json_piece(c: char) -> Seq<char> {
    if c == '"' {
        seq!['\\', '"']
    } else if c == '\\' {
        seq!['\\', '\\']
    } else if c == '\n' {
        seq!['\\', 'n']
    } else if (c as u32) < 0x20 {
        seq!['\\', 'u', '0', '0', hex_char(((c as u32) / 16) as int), hex_char(((c as u32) % 16) as int)]
    } else {
        seq![c]
    }
}

/// The characters of `s` written for a JSON string.
pub open spec fn json_escaped(s: Seq<char>) -> Seq<char>
    decreases s.len(),
{
    if s.len() == 0 {
        Seq::empty()
    } else {
        json_escaped(s.drop_last()) + json_piece(s.last())
    }
}

fn hex_digit(d: u32) -> (c: char)
    requires
        d < 16,
    ensures
        c == hex_char(d as int),
{
    if d < 10 {
        crate::text::digit(d as u64)
    } else if d == 10 {
        'a'
    } else if d == 11 {
        'b'
    } else if d == 12 {
        'c'
    } else if d == 13 {
        'd'
    } else if d == 14 {
        'e'
    } else {
        'f'
    }
}

/// `s` as a JSON string: in quotes, with quotes, backslashes, newlines and
/// the other control characters escaped.
pub fn json_quote(s: &str) -> (r: String)
    ensures
        r@ == seq!['"'] + json_escaped(s@) + seq!['"'],
{
    let v = chars_of(s);
    let mut r = String::new();
    push_char(&mut r, '"');
    let mut i: usize = 0;
    while i < v.len()
        invariant
            i <= v.len(),
            r@ == seq!['"'] + json_escaped(v@.take(i as int)),
        decreases v.len() - i,
    {
        proof {
            assert(v@.take(i + 1).drop_last() =~= v@.take(i as int));
            assert(v@.take(i + 1).last() == v@[i as int]);
        }
        let c = v[i];
        if c == '"' {
            push_char(&mut r, '\\');
            push_char(&mut r, '"');
        } else if c == '\\' {
            push_char(&mut r, '\\');
            push_char(&mut r, '\\');
        } else if c == '\n' {
            push_char(&mut r, '\\');
            push_char(&mut r, 'n');
        } else if (c as u32) < 0x20 {
            let n = c as u32;
            push_char(&mut r, '\\');
            push_char(&mut r, 'u');
            push_char(&mut r, '0');
            push_char(&mut r, '0');
            push_char(&mut r, hex_digit(n / 16));
            push_char(&mut r, hex_digit(n % 16));
        } else {
            push_char(&mut r, c);
        }
        i += 1;
        proof {
            assert(r@ =~= seq!['"'] + json_escaped(v@.take(i as int)));
        }
    }
    push_char(&mut r, '"');
    proof {
        assert(v@.take(v@.len() as int) =~= v@);
    }
    r
}

// ---------------------------------------------------------------------------
// CSV records
// ---------------------------------------------------------------------------

/// The state of the CSV reader: the records so far (each with the line it
/// starts on), the fields of the record being read, the field being read,
/// whether inside quotes, the current line, the line the record started on,
/// and whether the character at hand was already taken by the one before.
pub type CsvState = (Seq<(int, Seq<Seq<char>>)>, Seq<Seq<char>>, Seq<char>, bool, int, int, bool);

/// One character read, `next` being the one after it.
pub open spec fn csv_step(st: CsvState, c: char, next: Option<char>) -> CsvState {
    let (out, fields, cur, q, line, start, skip) = st;
    if skip {
        (out, fields, cur, q, line, start, false)
    } else if c == '"' && q && next == Some('"') {
        (out, fields, cur.push('"'), q, line, start, true)
    } else if c == '"' {
        (out, fields, cur, !q, line, start, false)
    } else if c == ',' && !q {
        (out, fields.push(cur), Seq::empty(), q, line, start, false)
    } else if c == '\r' && !q && next == Some('\n') {
        (out, fields, cur, q, line, start, false)
    } else if c == '\n' && !q {
        (out.push((start, fields.push(cur))), Seq::empty(), Seq::empty(), q, line + 1, line + 1, false)
    } else {
        (out, fields, cur.push(c), q, if c == '\n' {
            line + 1
        } else {
            line
        }, start, false)
    }
}

/// The reader's state after the first `i` characters of `t`.
pub open spec fn csv_run(t: Seq<char>, i: int) -> CsvState
    decreases i,
{
    if i <= 0 {
        (Seq::empty(), Seq::empty(), Seq::empty(), false, 1, 1, false)
    } else {
        csv_step(
            csv_run(t, i - 1),
            t[i - 1],
            if i < t.len() {
                Some(t[i])
            } else {
                None
            },
        )
    }
}

/// The CSV records of `t`, each with the 1-based line it starts on. A record
/// ends at a newline outside quotes; `""` inside quotes is a quote, and a
/// carriage return before a newline belongs to the line ending.
pub open spec fn records_of(t: Seq<char>) -> Seq<(int, Seq<Seq<char>>)> {
    let st = csv_run(t, t.len() as int);
    if st.2.len() > 0 || st.1.len() > 0 {
        st.0.push((st.5, st.1.push(st.2)))
    } else {
        st.0
    }
}

/// The characters of a list of strings.
pub open spec fn strings_view(v: Seq<String>) -> Seq<Seq<char>> {
    Seq::new(v.len(), |j: int| v[j]@)
}

/// The records of a list, as characters.
pub open spec fn records_view(v: Seq<(usize, Vec<String>)>) -> Seq<(int, Seq<Seq<char>>)> {
    Seq::new(v.len(), |k: int| (v[k].0 as int, strings_view(v[k].1@)))
}

/// The text as CSV records of fields, each with the 1-based line it starts
/// on; see [`records_of`].
pub fn split_records(text: &str) -> (r: Vec<(usize, Vec<String>)>)
    requires
        text@.len() < usize::MAX,
    ensures
        records_view(r@) == records_of(text@),
{
    let v = chars_of(text);
    let n = v.len();
    let mut out: Vec<(usize, Vec<String>)> = Vec::new();
    let mut fields: Vec<String> = Vec::new();
    let mut cur = String::new();
    let mut q = false;
    let mut line: usize = 1;
    let mut start: usize = 1;
    let mut skip = false;
    let mut i: usize = 0;
    while i < n
        invariant
            i <= n == v@.len() == text@.len() < usize::MAX,
            v@ == text@,
            1 <= start <= line <= i + 1,
            csv_run(v@, i as int) == (records_view(out@), strings_view(fields@), cur@, q, line as int, start as int, skip),
        decreases n - i,
    {
        let c = v[i];
        let next: Option<char> = if i + 1 < n {
            Some(v[i + 1])
        } else {
            None
        };
        let ghost before = csv_run(v@, i as int);
        proof {
            assert(csv_run(v@, i + 1) == csv_step(before, c, next));
        }
        if skip {
            skip = false;
        } else if c == '"' && q && next == Some('"') {
            push_char(&mut cur, '"');
            skip = true;
        } else if c == '"' {
            q = !q;
        } else if c == ',' && !q {
            let f = cur;
            cur = String::new();
            let ghost fv = fields@;
            fields.push(f);
            proof {
                assert(strings_view(fields@) =~= strings_view(fv).push(f@));
            }
        } else if c == '\r' && !q && next == Some('\n') {
        } else if c == '\n' && !q {
            let f = cur;
            cur = String::new();
            let ghost fv = fields@;
            fields.push(f);
            proof {
                assert(strings_view(fields@) =~= strings_view(fv).push(f@));
            }
            let rec = fields;
            let ghost rv = rec@;
            fields = Vec::new();
            let ghost ov = out@;
            out.push((start, rec));
            proof {
                assert(records_view(out@) =~= records_view(ov).push((start as int, strings_view(rv))));
                assert(strings_view(fields@) =~= Seq::<Seq<char>>::empty());
            }
            line += 1;
            start = line;
        } else {
            push_char(&mut cur, c);
            if c == '\n' {
                line += 1;
            }
        }
        i += 1;
    }
    proof {
        assert(v@.len() == n);
    }
    if !cur.as_str().is_empty() || fields.len() > 0 {
        let ghost fv = fields@;
        let ghost cv = cur@;
        fields.push(cur);
        let ghost ov = out@;
        let ghost rv = fields@;
        proof {
            assert(strings_view(rv) =~= strings_view(fv).push(cv));
        }
        out.push((start, fields));
        proof {
            assert(records_view(out@) =~= records_view(ov).push((start as int, strings_view(rv))));
        }
    }
    out
}

// ---------------------------------------------------------------------------
// JSON objects
// ---------------------------------------------------------------------------

/// The state of the JSON reader: the objects found so far, the text of the
/// one being read, the brace depth, whether inside a string, and whether
/// the last character was an escaping backslash.
pub type JsonState = (Seq<Seq<char>>, Seq<char>, int, bool, bool);

/// One character read.
pub open spec fn json_step(st: JsonState, c: char) -> JsonState {
    let (out, cur, depth, in_str, esc) = st;
    if in_str {
        let cur2 = if depth > 0 {
            cur.push(c)
        } else {
            cur
        };
        if esc {
            (out, cur2, depth, true, false)
        } else if c == '\\' {
            (out, cur2, depth, true, true)
        } else if c == '"' {
            (out, cur2, depth, false, false)
        } else {
            (out, cur2, depth, true, false)
        }
    } else if c == '"' {
        (out, if depth > 0 {
            cur.push(c)
        } else {
            cur
        }, depth, true, esc)
    } else if c == '{' {
        if depth + 1 == 1 {
            (out, Seq::empty(), depth + 1, in_str, esc)
        } else {
            (out, cur.push(c), depth + 1, in_str, esc)
        }
    } else if c == '}' {
        let d = if depth > 0 {
            depth - 1
        } else {
            0
        };
        if d == 0 {
            (out.push(cur), Seq::empty(), d, in_str, esc)
        } else {
            (out, cur.push(c), d, in_str, esc)
        }
    } else {
        (out, if depth > 0 {
            cur.push(c)
        } else {
            cur
        }, depth, in_str, esc)
    }
}

/// The reader's state after the first `i` characters.
pub open spec fn json_run(t: Seq<char>, i: int) -> JsonState
    decreases i,
{
    if i <= 0 {
        (Seq::empty(), Seq::empty(), 0, false, false)
    } else {
        json_step(json_run(t, i - 1), t[i - 1])
    }
}

/// The reader's state after reading `t` from the state `st`.
pub open spec fn json_feed(st: JsonState, t: Seq<char>) -> JsonState
    decreases t.len(),
{
    if t.len() == 0 {
        st
    } else {
        json_step(json_feed(st, t.drop_last()), t.last())
    }
}

/// Reading a text in two parts is reading it whole: the state after `t + u`
/// is the state after `t`, fed `u`.
pub proof fn json_reads_on(t: Seq<char>, u: Seq<char>)
    ensures
        json_run(t + u, (t + u).len() as int) == json_feed(json_run(t, t.len() as int), u),
    decreases u.len(),
{
    if u.len() == 0 {
        assert(t + u =~= t);
    } else {
        json_reads_on(t, u.drop_last());
        assert((t + u).drop_last() =~= t + u.drop_last());
        lemma_json_run_prefix(t + u, (t + u).len() - 1);
        assert((t + u)[(t + u).len() - 1] == u.last());
    }
}

/// The state after the first `i` characters depends on them alone.
proof fn lemma_json_run_prefix(t: Seq<char>, i: int)
    requires
        0 <= i <= t.len(),
    ensures
        json_run(t, i) == json_run(t.take(i), i),
    decreases i,
{
    if i > 0 {
        lemma_json_run_prefix(t, i - 1);
        lemma_json_run_prefix(t.take(i), i - 1);
        assert(t.take(i).take(i - 1) =~= t.take(i - 1));
        assert(t.take(i)[i - 1] == t[i - 1]);
    }
}

/// Inside a string, braces and commas are text: reading characters that are
/// neither a quote nor a backslash leaves the objects found and the depth
/// alone, keeps the reader inside the string, and only adds the characters
/// to the object being read.
pub proof fn braces_in_a_string_are_text(st: JsonState, s: Seq<char>)
    requires
        st.3,
        !st.4,
        forall|i: int| 0 <= i < s.len() ==> #[trigger] s[i] != '"' && s[i] != '\\',
    ensures
        json_feed(st, s) == (st.0, if st.2 > 0 {
            st.1 + s
        } else {
            st.1
        }, st.2, true, false),
    decreases s.len(),
{
    if s.len() > 0 {
        braces_in_a_string_are_text(st, s.drop_last());
        assert(s.last() == s[s.len() - 1]);
        if st.2 > 0 {
            assert((st.1 + s.drop_last()).push(s.last()) =~= st.1 + s);
        }
    } else {
        assert(st.1 + s =~= st.1);
    }
}

/// The texts of the top-level objects of `t`, found by brace depth with
/// strings skipped: a brace or comma inside a string does not split one.
pub open spec fn objects_of(t: Seq<char>) -> Seq<Seq<char>> {
    json_run(t, t.len() as int).0
}

/// The array's top-level objects, inside their braces.
pub fn json_objects(text: &str) -> (r: Vec<String>)
    requires
        text@.len() < usize::MAX,
    ensures
        strings_view(r@) == objects_of(text@),
{
    let v = chars_of(text);
    let n = v.len();
    let mut out: Vec<String> = Vec::new();
    let mut cur = String::new();
    let mut depth: usize = 0;
    let mut in_str = false;
    let mut esc = false;
    let mut i: usize = 0;
    while i < n
        invariant
            i <= n == v@.len() < usize::MAX,
            v@ == text@,
            depth <= i,
            json_run(v@, i as int) == (strings_view(out@), cur@, depth as int, in_str, esc),
        decreases n - i,
    {
        let c = v[i];
        if in_str {
            if depth > 0 {
                push_char(&mut cur, c);
            }
            if esc {
                esc = false;
            } else if c == '\\' {
                esc = true;
            } else if c == '"' {
                in_str = false;
            }
        } else if c == '"' {
            in_str = true;
            if depth > 0 {
                push_char(&mut cur, c);
            }
        } else if c == '{' {
            depth += 1;
            if depth == 1 {
                cur = String::new();
            } else {
                push_char(&mut cur, c);
            }
        } else if c == '}' {
            if depth > 0 {
                depth -= 1;
            }
            if depth == 0 {
                let f = cur;
                cur = String::new();
                let ghost ov = out@;
                out.push(f);
                proof {
                    assert(strings_view(out@) =~= strings_view(ov).push(f@));
                }
            } else {
                push_char(&mut cur, c);
            }
        } else if depth > 0 {
            push_char(&mut cur, c);
        }
        i += 1;
    }
    out
}

/// First position where `pat` occurs in `s`.
pub open spec fn find_sub(s: Seq<char>, pat: Seq<char>) -> Option<int>
    decreases s.len(),
{
    if pat.len() > s.len() {
        None
    } else if s.take(pat.len() as int) == pat {
        Some(0)
    } else if s.len() == 0 {
        None
    } else {
        match find_sub(s.drop_first(), pat) {
            Some(i) => Some(i + 1),
            None => None,
        }
    }
}

/// The first occurrence of `pat` is at `i` when it occurs there and at no
/// earlier place; there is none when it occurs nowhere up to the end.
pub proof fn lemma_find_sub_at(s: Seq<char>, pat: Seq<char>, i: int)
    requires
        0 <= i,
        i + pat.len() <= s.len() + 1,
        forall|j: int| 0 <= j < i ==> #[trigger] s.subrange(j, j + pat.len()) != pat,
        i + pat.len() <= s.len() ==> s.subrange(i, i + pat.len()) == pat,
    ensures
        find_sub(s, pat) == (if i + pat.len() <= s.len() {
            Some(i)
        } else {
            None::<int>
        }),
    decreases i,
{
    if i > 0 {
        assert(s.subrange(0int, 0int + pat.len()) != pat);
        if pat.len() == 0 {
            assert(s.subrange(0int, 0int + pat.len()) =~= pat);
        }
        assert(s.take(pat.len() as int) =~= s.subrange(0int, 0int + pat.len()));
        let u = s.drop_first();
        assert forall|j: int| 0 <= j < i - 1 implies #[trigger] u.subrange(j, j + pat.len()) != pat by {
            assert(u.subrange(j, j + pat.len()) =~= s.subrange(j + 1, j + 1 + pat.len()));
        }
        if i + pat.len() <= s.len() {
            assert(u.subrange(i - 1, i - 1 + pat.len()) =~= s.subrange(i, i + pat.len()));
        }
        lemma_find_sub_at(u, pat, i - 1);
    } else if pat.len() <= s.len() {
        assert(s.take(pat.len() as int) =~= s.subrange(0, pat.len() as int));
    }
}

/// What an escaped character stands for.
pub open spec fn unescape(c: char) -> char {
    if c == 'n' {
        '\n'
    } else if c == 't' {
        '\t'
    } else if c == 'r' {
        '\r'
    } else {
        c
    }
}

/// The characters of a JSON string up to its closing quote, unescaped;
/// `esc` says whether the first one is escaped.
pub open spec fn unquoted(s: Seq<char>, esc: bool) -> Seq<char>
    decreases s.len(),
{
    if s.len() == 0 {
        Seq::empty()
    } else if esc {
        seq![unescape(s[0])] + unquoted(s.drop_first(), false)
    } else if s[0] == '\\' {
        unquoted(s.drop_first(), true)
    } else if s[0] == '"' {
        Seq::empty()
    } else {
        seq![s[0]] + unquoted(s.drop_first(), false)
    }
}

/// The string value of field `name` in an object's text: after the first
/// `"name":` and any whitespace, a string in quotes, unescaped; empty when
/// there is none.
pub open spec fn field_of(obj: Seq<char>, name: Seq<char>) -> Seq<char> {
    let needle = seq!['"'] + name + seq!['"', ':'];
    match find_sub(obj, needle) {
        None => Seq::empty(),
        Some(p) => {
            let rest = obj.skip(p + needle.len()).skip(lead_ws(obj.skip(p + needle.len())));
            if rest.len() > 0 && rest[0] == '"' {
                unquoted(rest.drop_first(), false)
            } else {
                Seq::empty()
            }
        },
    }
}

/// One string-valued field of an object, unescaping what [`json_quote`]
/// wrote; empty when the object has no such string field.
pub fn json_field(obj: &str, name: &str) -> (r: String)
    ensures
        r@ == field_of(obj@, name@),
{
    let v = chars_of(obj);
    let mut needle: Vec<char> = Vec::new();
    needle.push('"');
    let nv = chars_of(name);
    let mut k: usize = 0;
    while k < nv.len()
        invariant
            k <= nv.len(),
            needle@ == seq!['"'] + nv@.take(k as int),
        decreases nv.len() - k,
    {
        needle.push(nv[k]);
        k += 1;
        proof {
            assert(needle@ =~= seq!['"'] + nv@.take(k as int));
        }
    }
    needle.push('"');
    needle.push(':');
    let ghost pat = seq!['"'] + name@ + seq!['"', ':'];
    proof {
        assert(nv@.take(nv@.len() as int) =~= nv@);
        assert(needle@ =~= pat);
    }
    let m = needle.len();
    if m > v.len() {
        return String::new();
    }
    // the first position of the needle
    let mut p: usize = 0;
    let mut found = false;
    while p <= v.len() - m && !found
        invariant
            m == needle@.len() == pat.len(),
            m <= v.len(),
            needle@ == pat,
            p + m <= v.len() + 1,
            found ==> p + m <= v.len() && v@.subrange(p as int, p + m) == pat,
            forall|j: int| 0 <= j < p ==> #[trigger] v@.subrange(j, j + m) != pat,
        decreases v.len() + 1 - p - (if found { 1int } else { 0 }),
    {
        let mut q: usize = 0;
        while q < m && v[p + q] == needle[q]
            invariant
                q <= m,
                p + m <= v.len(),
                m == needle@.len(),
                forall|j: int| 0 <= j < q ==> v@[p + j] == needle@[j],
            decreases m - q,
        {
            q += 1;
        }
        if q == m {
            proof {
                assert(v@.subrange(p as int, p + m) =~= pat);
            }
            found = true;
        } else {
            proof {
                assert(v@.subrange(p as int, p + m)[q as int] == v@[p + q]);
            }
            p += 1;
        }
    }
    proof {
        lemma_find_sub_at(v@, pat, p as int);
        assert(v@ == obj@);
    }
    if !found {
        return String::new();
    }
    let rest0 = p + m;
    let mut a = rest0;
    while a < v.len() && crate::text::is_whitespace(v[a])
        invariant
            rest0 <= a <= v.len(),
            forall|j: int| rest0 <= j < a ==> is_ws(#[trigger] v@[j]),
        decreases v.len() - a,
    {
        a += 1;
    }
    let ghost after = v@.skip(rest0 as int);
    proof {
        assert forall|j: int| 0 <= j < a - rest0 implies is_ws(#[trigger] after[j]) by {
            assert(after[j] == v@[rest0 + j]);
        }
        if a < v.len() {
            assert(after[a - rest0] == v@[a as int]);
        }
        lemma_lead_exact(after, a - rest0);
        assert(after.skip(a - rest0) =~= v@.skip(a as int));
    }
    if a >= v.len() || v[a] != '"' {
        return String::new();
    }
    let mut out = String::new();
    let mut esc = false;
    let mut i = a + 1;
    let ghost body = v@.skip(a + 1);
    proof {
        assert(v@.skip(a as int).drop_first() =~= body);
        assert(v@.skip(i as int) =~= body);
        let rest = obj@.skip(p + m).skip(lead_ws(obj@.skip(p + m)));
        assert(rest =~= v@.skip(a as int));
        assert(rest.drop_first() =~= body);
        assert(field_of(obj@, name@) == unquoted(body, false));
    }
    while i < v.len()
        invariant
            a + 1 <= i <= v.len(),
            body == v@.skip(a + 1),
            unquoted(body, false) == field_of(obj@, name@),
            out@ + unquoted(v@.skip(i as int), esc) == unquoted(body, false),
        decreases v.len() - i,
    {
        let c = v[i];
        proof {
            assert(v@.skip(i as int)[0] == c);
            assert(v@.skip(i as int).drop_first() =~= v@.skip(i + 1));
        }
        if esc {
            let u = if c == 'n' {
                '\n'
            } else if c == 't' {
                '\t'
            } else if c == 'r' {
                '\r'
            } else {
                c
            };
            let ghost o = out@;
            push_char(&mut out, u);
            proof {
                assert(o + unquoted(v@.skip(i as int), esc) =~= out@ + unquoted(v@.skip(i + 1), false));
            }
            esc = false;
        } else if c == '\\' {
            esc = true;
        } else if c == '"' {
            proof {
                assert(out@ + unquoted(v@.skip(i as int), esc) =~= out@);
            }
            return out;
        } else {
            let ghost o = out@;
            push_char(&mut out, c);
            proof {
                assert(o + unquoted(v@.skip(i as int), esc) =~= out@ + unquoted(v@.skip(i + 1), false));
            }
        }
        i += 1;
    }
    proof {
        assert(v@.skip(i as int) =~= Seq::<char>::empty());
        assert(out@ =~= out@ + unquoted(v@.skip(i as int), esc));
    }
    out
}

// ---------------------------------------------------------------------------
// Rows
// ---------------------------------------------------------------------------

/// An entry read from a file.
#[derive(Debug, Clone, PartialEq, Eq)]
pub struct ImportRow {
    pub date: Date,
    pub start: Time,
    pub end: Time,
    pub project: String,
    pub comment: String,
    /// 1-based line (or object) in the source, so a skip can say which row
    /// it was.
    pub line: usize,
}

/// Why a file could not be read.
#[derive(Debug)]
pub enum ImportError {
    /// A row that does not read as an entry, with its line.
    Row { line: usize, what: String },
    /// A CSV header that is neither `tk`'s nor the older tool's.
    Header,
}

impl ImportError {
    /// The message the error is shown with.
    pub fn message(&self) -> (r: String)
        ensures
            r@ == match self {
                ImportError::Row { line, what } => "line "@ + decimal(*line as nat) + ": "@ + what@,
                ImportError::Header => "unrecognised header; expected a tk export or the old tool's CSV"@,
            },
    {
        match self {
            ImportError::Row { line, what } => {
                let mut r = String::from_str("line ");
                push_decimal(&mut r, *line as u64);
                push_str(&mut r, ": ");
                push_str(&mut r, what.as_str());
                r
            },
            ImportError::Header => String::from_str(
                "unrecognised header; expected a tk export or the old tool's CSV",
            ),
        }
    }
}

/// A row as date, start and end (hour, minute, second), project, comment and
/// line.
pub type RowView = ((int, int, int), (int, int, int), (int, int, int), Seq<char>, Seq<char>, int);

pub open spec fn row_view(r: ImportRow) -> RowView {
    (r.date@, r.start@, r.end@, r.project@, r.comment@, r.line as int)
}

/// A row error as its line and what is wrong; a header error as nothing.
pub open spec fn error_view(e: ImportError) -> Option<(int, Seq<char>)> {
    match e {
        ImportError::Row { line, what } => Some((line as int, what@)),
        ImportError::Header => None,
    }
}

/// What the fields of a row make: a row, or the line and what is wrong with
/// it. The project must not be blank, the date reads as `YYYY-MM-DD` and the
/// times as `HH:MM`, on the minute; project and comment lose the whitespace
/// around them.
pub open spec fn row_of(
    line: int,
    date: Seq<char>,
    start: Seq<char>,
    end: Seq<char>,
    project: Seq<char>,
    comment: Seq<char>,
) -> Result<RowView, (int, Seq<char>)> {
    if trim(project).len() == 0 {
        Err((line, "no project"@))
    } else {
        match chrono_ymd_text(date) {
            None => Err((line, seq!['\''] + date + "' is not a YYYY-MM-DD date"@)),
            Some(ymd) => match chrono_hm_text(start) {
                None => Err((line, seq!['\''] + start + "' is not a HH:MM time"@)),
                Some(s) => match chrono_hm_text(end) {
                    None => Err((line, seq!['\''] + end + "' is not a HH:MM time"@)),
                    Some(e) => Ok((ymd, (s.0, s.1, 0), (e.0, e.1, 0), trim(project), trim(comment), line)),
                },
            },
        }
    }
}

/// A result of reading rows, and what it should be.
pub open spec fn row_result_matches(r: Result<ImportRow, ImportError>, s: Result<RowView, (int, Seq<char>)>) -> bool {
    match (r, s) {
        (Ok(x), Ok(v)) => row_view(x) == v,
        (Err(e), Err(v)) => error_view(e) == Some(v),
        _ => false,
    }
}

fn bad_time(line: usize, s: &str) -> (e: ImportError)
    ensures
        error_view(e) == Some((line as int, seq!['\''] + s@ + "' is not a HH:MM time"@)),
{
    let mut w = String::from_str("'");
    push_str(&mut w, s);
    push_str(&mut w, "' is not a HH:MM time");
    proof {
        reveal_strlit("'");
        assert(w@ =~= seq!['\''] + s@ + "' is not a HH:MM time"@);
    }
    ImportError::Row { line, what: w }
}

/// The row the fields make, or the line and what is wrong.
pub fn row_from(line: usize, date: &str, start: &str, end: &str, project: &str, comment: &str) -> (r:
    Result<ImportRow, ImportError>)
    ensures
        row_result_matches(r, row_of(line as int, date@, start@, end@, project@, comment@)),
{
    let p = trimmed(project);
    if p.as_str().is_empty() {
        return Err(ImportError::Row { line, what: String::from_str("no project") });
    }
    let d = match Date::parse_ymd(date) {
        Some(d) => d,
        None => {
            let mut w = String::from_str("'");
            push_str(&mut w, date);
            push_str(&mut w, "' is not a YYYY-MM-DD date");
            proof {
                reveal_strlit("'");
                assert(w@ =~= seq!['\''] + date@ + "' is not a YYYY-MM-DD date"@);
            }
            return Err(ImportError::Row { line, what: w });
        },
    };
    let s = match Time::parse_hm(start) {
        Some(t) => t,
        None => {
            return Err(bad_time(line, start));
        },
    };
    let e = match Time::parse_hm(end) {
        Some(t) => t,
        None => {
            return Err(bad_time(line, end));
        },
    };
    Ok(ImportRow { date: d, start: s, end: e, project: p, comment: trimmed(comment), line })
}

// ---------------------------------------------------------------------------
// Whole files
// ---------------------------------------------------------------------------

/// Whether every field is blank.
pub open spec fn blank_fields(f: Seq<Seq<char>>) -> bool {
    forall|j: int| 0 <= j < f.len() ==> trim(#[trigger] f[j]).len() == 0
}

/// Whether every field is blank or whitespace.
pub fn is_blank(fields: &[String]) -> (r: bool)
    ensures
        r == blank_fields(strings_view(fields@)),
{
    let mut i: usize = 0;
    while i < fields.len()
        invariant
            i <= fields.len(),
            forall|j: int| 0 <= j < i ==> trim(#[trigger] fields@[j]@).len() == 0,
        decreases fields.len() - i,
    {
        let t = trimmed(fields[i].as_str());
        if !t.as_str().is_empty() {
            proof {
                assert(strings_view(fields@)[i as int] == fields@[i as int]@);
            }
            return false;
        }
        i += 1;
    }
    proof {
        assert forall|j: int| 0 <= j < strings_view(fields@).len() implies trim(
            #[trigger] strings_view(fields@)[j],
        ).len() == 0 by {
            assert(strings_view(fields@)[j] == fields@[j]@);
        }
    }
    true
}

/// The records that are not blank.
pub open spec fn nonblank(r: Seq<(int, Seq<Seq<char>>)>) -> Seq<(int, Seq<Seq<char>>)>
    decreases r.len(),
{
    if r.len() == 0 {
        r
    } else if blank_fields(r.last().1) {
        nonblank(r.drop_last())
    } else {
        nonblank(r.drop_last()).push(r.last())
    }
}

/// The first position of `name` in the header.
pub open spec fn position(h: Seq<Seq<char>>, name: Seq<char>) -> Option<int>
    decreases h.len(),
{
    if h.len() == 0 {
        None
    } else {
        match position(h.drop_last(), name) {
            Some(i) => Some(i),
            None => if h.last() == name {
                Some(h.len() - 1)
            } else {
                None
            },
        }
    }
}

/// Where the columns we keep are: date, start, end, project and comment.
/// `tk`'s export and the older tool's differ in order and in the names of
/// the two time columns.
pub open spec fn layout_spec(h: Seq<Seq<char>>) -> Option<(int, int, int, int, int)> {
    let start = match position(h, "start"@) {
        Some(i) => Some(i),
        None => position(h, "start_time"@),
    };
    let end = match position(h, "end"@) {
        Some(i) => Some(i),
        None => position(h, "end_time"@),
    };
    match (start, end, position(h, "date"@), position(h, "project"@), position(h, "comment"@)) {
        (Some(s), Some(e), Some(d), Some(p), Some(c)) => Some((d, s, e, p, c)),
        _ => None,
    }
}

/// Column positions of the fields that are kept.
#[derive(Clone, Copy, Debug, PartialEq, Eq)]
pub struct Layout {
    pub date: usize,
    pub start: usize,
    pub end: usize,
    pub project: usize,
    pub comment: usize,
}

pub open spec fn layout_view(l: Layout) -> (int, int, int, int, int) {
    (l.date as int, l.start as int, l.end as int, l.project as int, l.comment as int)
}

fn position_of(header: &[String], name: &str) -> (r: Option<usize>)
    ensures
        r matches Some(j) ==> position(strings_view(header@), name@) == Some(j as int),
        r is None <==> position(strings_view(header@), name@) is None,
{
    let target = String::from_str(name);
    let mut i: usize = 0;
    while i < header.len()
        invariant
            i <= header.len(),
            target@ == name@,
            position(strings_view(header@).take(i as int), name@) is None,
        decreases header.len() - i,
    {
        proof {
            assert(strings_view(header@).take(i + 1).drop_last() =~= strings_view(header@).take(i as int));
            assert(strings_view(header@).take(i + 1).last() == header@[i as int]@);
        }
        if header[i] == target {
            proof {
                lemma_position_prefix(strings_view(header@), name@, i + 1);
            }
            return Some(i);
        }
        i += 1;
    }
    proof {
        assert(strings_view(header@).take(header@.len() as int) =~= strings_view(header@));
    }
    None
}

/// A name found in a prefix is found at the same place in the whole.
proof fn lemma_position_prefix(h: Seq<Seq<char>>, name: Seq<char>, i: int)
    requires
        0 <= i <= h.len(),
        position(h.take(i), name) is Some,
    ensures
        position(h, name) == position(h.take(i), name),
    decreases h.len() - i,
{
    if i < h.len() {
        assert(h.drop_last().take(i) =~= h.take(i));
        lemma_position_prefix(h.drop_last(), name, i);
    } else {
        assert(h.take(i) =~= h);
    }
}

/// Where the kept columns are in a header, if it is one we know.
pub fn layout_of(header: &[String]) -> (r: Option<Layout>)
    ensures
        match layout_spec(strings_view(header@)) {
            Some(l) => r matches Some(x) && layout_view(x) == l,
            None => r is None,
        },
{
    proof {
        reveal_strlit("start");
        reveal_strlit("start_time");
        reveal_strlit("end");
        reveal_strlit("end_time");
    }
    let start = match position_of(header, "start") {
        Some(i) => i,
        None => match position_of(header, "start_time") {
            Some(i) => i,
            None => return None,
        },
    };
    let end = match position_of(header, "end") {
        Some(i) => i,
        None => match position_of(header, "end_time") {
            Some(i) => i,
            None => return None,
        },
    };
    let date = match position_of(header, "date") {
        Some(i) => i,
        None => return None,
    };
    let project = match position_of(header, "project") {
        Some(i) => i,
        None => return None,
    };
    let comment = match position_of(header, "comment") {
        Some(i) => i,
        None => return None,
    };
    Some(Layout { date, start, end, project, comment })
}

/// The field at `i`, empty past the end.
pub open spec fn field_at(f: Seq<Seq<char>>, i: int) -> Seq<char> {
    if 0 <= i < f.len() {
        f[i]
    } else {
        Seq::empty()
    }
}

/// The rows of the records after the header, or the first error.
pub open spec fn csv_rows(recs: Seq<(int, Seq<Seq<char>>)>, l: (int, int, int, int, int)) -> Result<
    Seq<RowView>,
    (int, Seq<char>),
>
    decreases recs.len(),
{
    if recs.len() == 0 {
        Ok(Seq::empty())
    } else {
        match csv_rows(recs.drop_last(), l) {
            Err(e) => Err(e),
            Ok(rows) => {
                let f = recs.last().1;
                match row_of(
                    recs.last().0,
                    field_at(f, l.0),
                    field_at(f, l.1),
                    field_at(f, l.2),
                    field_at(f, l.3),
                    field_at(f, l.4),
                ) {
                    Err(e) => Err(e),
                    Ok(x) => Ok(rows.push(x)),
                }
            },
        }
    }
}

/// What a CSV text reads as: the rows, or the first row error, or a header
/// error (`None`). Blank records are passed over; the first one left is the
/// header.
pub open spec fn csv_result(t: Seq<char>) -> Result<Seq<RowView>, Option<(int, Seq<char>)>> {
    let recs = nonblank(records_of(t));
    if recs.len() == 0 {
        Ok(Seq::empty())
    } else {
        match layout_spec(recs[0].1) {
            None => Err(None),
            Some(l) => match csv_rows(recs.drop_first(), l) {
                Ok(rows) => Ok(rows),
                Err(e) => Err(Some(e)),
            },
        }
    }
}

/// The rows of a list, as views.
pub open spec fn rows_view(v: Seq<ImportRow>) -> Seq<RowView> {
    Seq::new(v.len(), |k: int| row_view(v[k]))
}

/// A result of reading a file, and what it should be.
pub open spec fn file_result_matches(
    r: Result<Vec<ImportRow>, ImportError>,
    s: Result<Seq<RowView>, Option<(int, Seq<char>)>>,
) -> bool {
    match (r, s) {
        (Ok(rows), Ok(v)) => rows_view(rows@) == v,
        (Err(e), Err(v)) => error_view(e) == v,
        _ => false,
    }
}

/// The string at `i` of the fields, or an empty one.
fn get_field(f: &Vec<String>, i: usize) -> (r: &str)
    ensures
        r@ == field_at(strings_view(f@), i as int),
{
    proof {
        reveal_strlit("");
    }
    if i < f.len() {
        f[i].as_str()
    } else {
        ""
    }
}

/// Reads `tk`'s CSV export or the older tool's CSV.
pub fn parse_csv(text: &str) -> (r: Result<Vec<ImportRow>, ImportError>)
    requires
        text@.len() < usize::MAX,
    ensures
        file_result_matches(r, csv_result(text@)),
{
    proof {
        reveal_strlit("");
    }
    let records = split_records(text);
    let ghost all = records_of(text@);
    let mut layout: Option<Layout> = None;
    let mut rows: Vec<ImportRow> = Vec::new();
    let mut k: usize = 0;
    while k < records.len()
        invariant
            k <= records@.len(),
            records_view(records@) == all,
            all == records_of(text@),
            layout is None ==> nonblank(all.take(k as int)).len() == 0 && rows@.len() == 0,
            layout matches Some(l) ==> {
                &&& nonblank(all.take(k as int)).len() >= 1
                &&& layout_spec(nonblank(all.take(k as int))[0].1) == Some(layout_view(l))
                &&& csv_rows(nonblank(all.take(k as int)).drop_first(), layout_view(l)) == Ok::<
                    Seq<RowView>,
                    (int, Seq<char>),
                >(rows_view(rows@))
            },
        decreases records.len() - k,
    {
        let ghost pre = all.take(k as int);
        let ghost nxt = all.take(k + 1);
        proof {
            assert(nxt.drop_last() =~= pre);
            assert(nxt.last() == all[k as int]);
            assert(all[k as int] == (records@[k as int].0 as int, strings_view(records@[k as int].1@)));
            lemma_nonblank_first(nxt);
        }
        let (line, ref fields) = records[k];
        if !is_blank(fields.as_slice()) {
            match layout {
                None => {
                    match layout_of(fields.as_slice()) {
                        None => {
                            proof {
                                lemma_nonblank_prefix(all, k + 1);
                                assert(nonblank(all)[0] == nonblank(nxt)[0]);
                            }
                            return Err(ImportError::Header);
                        },
                        Some(l) => {
                            layout = Some(l);
                            proof {
                                assert(nonblank(nxt).drop_first() =~= Seq::<(int, Seq<Seq<char>>)>::empty());
                                assert(rows_view(rows@) =~= Seq::<RowView>::empty());
                            }
                        },
                    }
                },
                Some(l) => {
                    let row = row_from(
                        line,
                        get_field(fields, l.date),
                        get_field(fields, l.start),
                        get_field(fields, l.end),
                        get_field(fields, l.project),
                        get_field(fields, l.comment),
                    );
                    proof {
                        assert(nonblank(nxt).drop_first() =~= nonblank(pre).drop_first().push(all[k as int]));
                        assert(nonblank(nxt).drop_first().drop_last() =~= nonblank(pre).drop_first());
                    }
                    match row {
                        Err(e) => {
                            proof {
                                lemma_nonblank_prefix(all, k + 1);
                                let nb = nonblank(all);
                                let nn = nonblank(nxt);
                                assert(nb.take(nn.len() as int) == nn);
                                assert(nb[0] == nn[0]);
                                assert(nb.drop_first().take(nn.drop_first().len() as int) =~= nn.drop_first());
                                lemma_csv_rows_error(nb.drop_first(), nn.drop_first(), layout_view(l));
                            }
                            return Err(e);
                        },
                        Ok(x) => {
                            let ghost rv = rows@;
                            rows.push(x);
                            proof {
                                assert(rows_view(rows@) =~= rows_view(rv).push(row_view(x)));
                            }
                        },
                    }
                },
            }
        }
        k += 1;
    }
    proof {
        assert(records@.len() == all.len());
        assert(k == all.len());
        assert(all.take(k as int) =~= all);
        if layout is None {
            assert(rows_view(rows@) =~= Seq::<RowView>::empty());
        }
    }
    Ok(rows)
}

proof fn lemma_nonblank_first(r: Seq<(int, Seq<Seq<char>>)>)
    requires
        r.len() > 0,
    ensures
        nonblank(r.drop_last()).len() > 0 ==> nonblank(r)[0] == nonblank(r.drop_last())[0],
        nonblank(r).len() >= nonblank(r.drop_last()).len(),
{
}

/// The records kept from a prefix begin the records kept from the whole.
proof fn lemma_nonblank_prefix(r: Seq<(int, Seq<Seq<char>>)>, i: int)
    requires
        0 <= i <= r.len(),
    ensures
        nonblank(r.take(i)).len() <= nonblank(r).len(),
        nonblank(r).take(nonblank(r.take(i)).len() as int) == nonblank(r.take(i)),
    decreases r.len() - i,
{
    if i < r.len() {
        lemma_nonblank_prefix(r.drop_last(), i);
        assert(r.drop_last().take(i) =~= r.take(i));
        let a = nonblank(r.drop_last());
        let b = nonblank(r.take(i));
        if !blank_fields(r.last().1) {
            assert(a.push(r.last()).take(b.len() as int) =~= a.take(b.len() as int));
        }
    } else {
        assert(r.take(i) =~= r);
    }
}

/// An error among the first records is the error of them all.
proof fn lemma_csv_rows_error(
    all: Seq<(int, Seq<Seq<char>>)>,
    pre: Seq<(int, Seq<Seq<char>>)>,
    l: (int, int, int, int, int),
)
    requires
        pre.len() <= all.len(),
        all.take(pre.len() as int) == pre,
        csv_rows(pre, l) is Err,
    ensures
        csv_rows(all, l) == csv_rows(pre, l),
    decreases all.len(),
{
    if all.len() > pre.len() {
        assert(all.drop_last().take(pre.len() as int) =~= pre);
        lemma_csv_rows_error(all.drop_last(), pre, l);
    } else {
        assert(all =~= pre);
    }
}

/// The rows of the objects, the `i`-th counted as line `i + 1`, or the first
/// error.
pub open spec fn json_rows(objs: Seq<Seq<char>>) -> Result<Seq<RowView>, (int, Seq<char>)>
    decreases objs.len(),
{
    if objs.len() == 0 {
        Ok(Seq::empty())
    } else {
        match json_rows(objs.drop_last()) {
            Err(e) => Err(e),
            Ok(rows) => {
                let o = objs.last();
                match row_of(
                    objs.len() as int,
                    field_of(o, "date"@),
                    field_of(o, "start"@),
                    field_of(o, "end"@),
                    field_of(o, "project"@),
                    field_of(o, "comment"@),
                ) {
                    Err(e) => Err(e),
                    Ok(x) => Ok(rows.push(x)),
                }
            },
        }
    }
}

/// What a JSON text reads as.
pub open spec fn json_result(t: Seq<char>) -> Result<Seq<RowView>, Option<(int, Seq<char>)>> {
    match json_rows(objects_of(t)) {
        Ok(rows) => Ok(rows),
        Err(e) => Err(Some(e)),
    }
}

/// Reads the flat array `tk export --format json` writes.
pub fn parse_json(text: &str) -> (r: Result<Vec<ImportRow>, ImportError>)
    requires
        text@.len() < usize::MAX,
    ensures
        file_result_matches(r, json_result(text@)),
{
    let objs = json_objects(text);
    let ghost ov = strings_view(objs@);
    let mut rows: Vec<ImportRow> = Vec::new();
    let mut i: usize = 0;
    proof {
        assert(ov.take(0) =~= Seq::<Seq<char>>::empty());
        assert(rows_view(rows@) =~= Seq::<RowView>::empty());
    }
    while i < objs.len()
        invariant
            i <= objs@.len() == ov.len(),
            ov == strings_view(objs@),
            ov == objects_of(text@),
            json_rows(ov.take(i as int)) == Ok::<Seq<RowView>, (int, Seq<char>)>(rows_view(rows@)),
        decreases objs.len() - i,
    {
        let o = objs[i].as_str();
        proof {
            assert(ov.take(i + 1).drop_last() =~= ov.take(i as int));
            assert(ov.take(i + 1).last() == o@);
        }
        let row = row_from(
            i + 1,
            json_field(o, "date").as_str(),
            json_field(o, "start").as_str(),
            json_field(o, "end").as_str(),
            json_field(o, "project").as_str(),
            json_field(o, "comment").as_str(),
        );
        match row {
            Err(e) => {
                proof {
                    lemma_json_rows_error(ov, i + 1);
                }
                return Err(e);
            },
            Ok(x) => {
                let ghost rv = rows@;
                rows.push(x);
                proof {
                    assert(rows_view(rows@) =~= rows_view(rv).push(row_view(x)));
                }
            },
        }
        i += 1;
    }
    proof {
        assert(ov.take(ov.len() as int) =~= ov);
    }
    Ok(rows)
}

/// An error among the first objects is the error of them all.
proof fn lemma_json_rows_error(objs: Seq<Seq<char>>, i: int)
    requires
        0 <= i <= objs.len(),
        json_rows(objs.take(i)) is Err,
    ensures
        json_rows(objs) == json_rows(objs.take(i)),
    decreases objs.len() - i,
{
    if i < objs.len() {
        assert(objs.drop_last().take(i) =~= objs.take(i));
        lemma_json_rows_error(objs.drop_last(), i);
    } else {
        assert(objs.take(i) =~= objs);
    }
}

/// The text without a byte-order mark at its start.
pub open spec fn without_bom(t: Seq<char>) -> Seq<char> {
    if t.len() > 0 && t[0] == '\u{feff}' {
        t.drop_first()
    } else {
        t
    }
}

/// What an import text reads as: JSON when, past a byte-order mark and
/// whitespace, it starts with `[`; CSV otherwise.
pub open spec fn import_result(t: Seq<char>) -> Result<Seq<RowView>, Option<(int, Seq<char>)>> {
    let u = without_bom(t);
    if lead_ws(u) < u.len() && u[lead_ws(u)] == '[' {
        json_result(u)
    } else {
        csv_result(u)
    }
}

/// Detects the format from the text itself and reads every row.
pub fn parse_import(text: &str) -> (r: Result<Vec<ImportRow>, ImportError>)
    requires
        text@.len() < usize::MAX,
    ensures
        file_result_matches(r, import_result(text@)),
{
    let v = chars_of(text);
    let from: usize = if v.len() > 0 && v[0] == '\u{feff}' {
        1
    } else {
        0
    };
    let body = string_of(&v, from, v.len());
    proof {
        assert(body@ =~= without_bom(text@));
    }
    let mut a = from;
    while a < v.len() && crate::text::is_whitespace(v[a])
        invariant
            from <= a <= v.len(),
            forall|j: int| from <= j < a ==> is_ws(#[trigger] v@[j]),
        decreases v.len() - a,
    {
        a += 1;
    }
    proof {
        let u = body@;
        assert forall|j: int| 0 <= j < a - from implies is_ws(#[trigger] u[j]) by {
            assert(u[j] == v@[from + j]);
        }
        if a < v.len() {
            assert(u[a - from] == v@[a as int]);
        }
        lemma_lead_exact(u, a - from);
    }
    if a < v.len() && v[a] == '[' {
        parse_json(body.as_str())
    } else {
        parse_csv(body.as_str())
    }
}

// ---------------------------------------------------------------------------
// What is written comes back
// ---------------------------------------------------------------------------

/// Text [`json_quote`] writes in a way [`json_field`] reads back: nothing
/// below U+0020 but the newline.
pub open spec fn json_safe(s: Seq<char>) -> bool {
    forall|i: int| 0 <= i < s.len() ==> (#[trigger] s[i] as u32) >= 0x20 || s[i] == '\n'
}

proof fn lemma_escaped_front(c: char, t: Seq<char>)
    ensures
        json_escaped(seq![c] + t) == json_piece(c) + json_escaped(t),
    decreases t.len(),
{
    if t.len() == 0 {
        assert(seq![c] + t =~= seq![c]);
        assert(seq![c].drop_last() =~= Seq::<char>::empty());
        assert(json_escaped(Seq::<char>::empty()) =~= Seq::<char>::empty());
        assert(seq![c].last() == c);
        assert(json_escaped(seq![c]) =~= json_escaped(seq![c].drop_last()) + json_piece(c));
        assert(json_escaped(seq![c]) =~= json_piece(c));
        assert(json_piece(c) + json_escaped(t) =~= json_piece(c));
    } else {
        lemma_escaped_front(c, t.drop_last());
        assert((seq![c] + t).drop_last() =~= seq![c] + t.drop_last());
        assert((seq![c] + t).last() == t.last());
        assert(json_escaped(seq![c] + t) =~= json_piece(c) + json_escaped(t.drop_last()) + json_piece(t.last()));
        assert(json_escaped(t) =~= json_escaped(t.drop_last()) + json_piece(t.last()));
    }
}

proof fn lemma_unquote_escaped(s: Seq<char>, tail: Seq<char>)
    requires
        json_safe(s),
    ensures
        unquoted(json_escaped(s) + seq!['"'] + tail, false) == s,
    decreases s.len(),
{
    if s.len() == 0 {
        assert(json_escaped(s) + seq!['"'] + tail =~= seq!['"'] + tail);
    } else {
        let c = s[0];
        let t = s.drop_first();
        assert(s =~= seq![c] + t);
        lemma_escaped_front(c, t);
        assert(json_safe(t)) by {
            assert forall|i: int| 0 <= i < t.len() implies (#[trigger] t[i] as u32) >= 0x20 || t[i] == '\n' by {
                assert(t[i] == s[i + 1]);
            }
        }
        lemma_unquote_escaped(t, tail);
        let rest = json_escaped(t) + seq!['"'] + tail;
        let whole = json_escaped(s) + seq!['"'] + tail;
        assert(whole =~= json_piece(c) + rest);
        assert((c as u32) >= 0x20 || c == '\n');
        if c == '"' || c == '\\' || c == '\n' {
            assert(whole[0] == '\\');
            assert(whole.drop_first().drop_first() =~= rest);
            let x = whole.drop_first()[0];
            assert(x == json_piece(c)[1]);
            assert(unescape(x) == c);
            assert(unquoted(whole, false) == unquoted(whole.drop_first(), true));
            assert(unquoted(whole.drop_first(), true) == seq![unescape(x)] + unquoted(
                whole.drop_first().drop_first(),
                false,
            ));
        } else {
            assert(json_piece(c) == seq![c]);
            assert(whole[0] == c);
            assert(whole.drop_first() =~= rest);
            assert(unquoted(whole, false) == seq![c] + unquoted(whole.drop_first(), false));
        }
        assert(unquoted(whole, false) =~= s);
    }
}

/// A string written with [`json_quote`] as the value of field `name` is read
/// back as it was by [`json_field`], as long as it holds no control
/// character but the newline.
pub proof fn lemma_json_field_round_trip(name: Seq<char>, s: Seq<char>, tail: Seq<char>)
    requires
        json_safe(s),
    ensures
        field_of(
            seq!['"'] + name + seq!['"', ':'] + (seq!['"'] + json_escaped(s) + seq!['"']) + tail,
            name,
        ) == s,
{
    let needle = seq!['"'] + name + seq!['"', ':'];
    let quoted = seq!['"'] + json_escaped(s) + seq!['"'];
    let obj = needle + quoted + tail;
    assert(obj.take(needle.len() as int) =~= needle);
    assert(find_sub(obj, needle) == Some(0int));
    let after = obj.skip(needle.len() as int);
    assert(after =~= quoted + tail);
    assert(after[0] == '"');
    assert(!is_ws('"'));
    lemma_lead_exact(after, 0);
    assert(after.skip(0) =~= after);
    assert(after.drop_first() =~= json_escaped(s) + seq!['"'] + tail);
    lemma_unquote_escaped(s, tail);
}

/// The newlines in `s`.
pub open spec fn newlines(s: Seq<char>) -> int
    decreases s.len(),
{
    if s.len() == 0 {
        0
    } else {
        newlines(s.drop_last()) + if s.last() == '\n' {
            1int
        } else {
            0
        }
    }
}

/// How one character is written inside a quoted CSV field.
pub open spec fn csv_piece(c: char) -> Seq<char> {
    if c == '"' {
        seq!['"', '"']
    } else {
        seq![c]
    }
}

proof fn lemma_doubled_prefix(s: Seq<char>, k: int)
    requires
        0 <= k <= s.len(),
    ensures
        doubled(s.take(k)).len() <= doubled(s).len(),
        doubled(s).take(doubled(s.take(k)).len() as int) == doubled(s.take(k)),
    decreases s.len() - k,
{
    if k < s.len() {
        lemma_doubled_prefix(s.drop_last(), k);
        assert(s.drop_last().take(k) =~= s.take(k));
        let a = doubled(s.drop_last());
        let b = doubled(s.take(k));
        assert(doubled(s) == a + csv_piece(s.last()));
        assert((a + csv_piece(s.last())).take(b.len() as int) =~= a.take(b.len() as int));
    } else {
        assert(s.take(k) =~= s);
    }
}

proof fn lemma_doubled_step(s: Seq<char>, k: int)
    requires
        0 <= k < s.len(),
    ensures
        doubled(s.take(k + 1)) == doubled(s.take(k)) + csv_piece(s[k]),
{
    assert(s.take(k + 1).drop_last() =~= s.take(k));
    assert(s.take(k + 1).last() == s[k]);
}

/// Reading the quoted characters of `s` as they were written.
proof fn lemma_csv_quoted_run(s: Seq<char>, k: int)
    requires
        0 <= k <= s.len(),
    ensures
        ({
            let t = seq!['"'] + doubled(s) + seq!['"', '\n'];
            csv_run(t, 1 + doubled(s.take(k)).len() as int) == (
                Seq::<(int, Seq<Seq<char>>)>::empty(),
                Seq::<Seq<char>>::empty(),
                s.take(k),
                true,
                1 + newlines(s.take(k)),
                1int,
                false,
            )
        }),
    decreases k,
{
    let t = seq!['"'] + doubled(s) + seq!['"', '\n'];
    let d = doubled(s);
    if k == 0 {
        assert(s.take(0) =~= Seq::<char>::empty());
        assert(doubled(s.take(0)) =~= Seq::<char>::empty());
        assert(t[0] == '"');
        assert(csv_run(t, 1) == csv_step(csv_run(t, 0), t[0], if 1 < t.len() { Some(t[1]) } else { None }));
    } else {
        lemma_csv_quoted_run(s, k - 1);
        lemma_doubled_step(s, k - 1);
        lemma_doubled_prefix(s, k);
        let c = s[k - 1];
        let dk = doubled(s.take(k - 1));
        let j: int = 1 + dk.len() as int;
        let m: int = dk.len() as int;
        assert(s.take(k).drop_last() =~= s.take(k - 1));
        assert(s.take(k).last() == c);
        assert(doubled(s.take(k)) == dk + csv_piece(c));
        assert(d.take(doubled(s.take(k)).len() as int) == dk + csv_piece(c));
        assert(t[j] == d[m]);
        assert(d[m] == (dk + csv_piece(c))[m]);
        if c == '"' {
            assert(t[j + 1] == d[m + 1]);
            assert(d[m + 1] == (dk + csv_piece(c))[m + 1]);
            assert(t[j] == '"' && t[j + 1] == '"');
            assert(csv_run(t, j + 1) == csv_step(csv_run(t, j), t[j], Some(t[j + 1])));
            assert(csv_run(t, j + 2) == csv_step(csv_run(t, j + 1), t[j + 1], if j + 2 < t.len() {
                Some(t[j + 2])
            } else {
                None
            }));
            assert(s.take(k - 1).push('"') =~= s.take(k));
        } else {
            assert(t[j] == c);
            assert(csv_run(t, j + 1) == csv_step(csv_run(t, j), t[j], if j + 1 < t.len() {
                Some(t[j + 1])
            } else {
                None
            }));
            assert(s.take(k - 1).push(c) =~= s.take(k));
        }
    }
}

/// Reading unquoted characters as they were written.
proof fn lemma_csv_plain_run(s: Seq<char>, k: int)
    requires
        0 <= k <= s.len(),
        !needs_quotes(s),
        s.len() == 0 || s.last() != '\r',
    ensures
        csv_run(s.push('\n'), k) == (
            Seq::<(int, Seq<Seq<char>>)>::empty(),
            Seq::<Seq<char>>::empty(),
            s.take(k),
            false,
            1int,
            1int,
            false,
        ),
    decreases k,
{
    let t = s.push('\n');
    if k == 0 {
        assert(s.take(0) =~= Seq::<char>::empty());
    } else {
        lemma_csv_plain_run(s, k - 1);
        let c = s[k - 1];
        assert(t[k - 1] == c);
        assert(!(c == ',' || c == '"' || c == '\n'));
        if c == '\r' && k < t.len() && t[k] == '\n' {
            assert(k == s.len());
            assert(s.last() == c);
        }
        assert(s.take(k - 1).push(c) =~= s.take(k));
    }
}

/// A field written with [`csv_quote`] and ended by a newline reads back as
/// one record holding exactly that field, on line 1 — unless, unquoted, it
/// ends in a carriage return, which the reader takes for half a line ending.
pub proof fn lemma_csv_round_trip(s: Seq<char>)
    requires
        needs_quotes(s) || s.len() == 0 || s.last() != '\r',
    ensures
        records_of(csv_field(s) + seq!['\n']) == seq![(1int, seq![s])],
{
    if needs_quotes(s) {
        let t = seq!['"'] + doubled(s) + seq!['"', '\n'];
        assert(csv_field(s) + seq!['\n'] =~= t);
        assert(s.take(s.len() as int) =~= s);
        lemma_csv_quoted_run(s, s.len() as int);
        let n: int = doubled(s).len() as int;
        assert(t[n + 1] == '"');
        assert(t[n + 2] == '\n');
        assert(t.len() == n + 3);
        assert(csv_run(t, n + 2) == csv_step(csv_run(t, n + 1), t[n + 1], Some(t[n + 2])));
        assert(csv_run(t, n + 3) == csv_step(csv_run(t, n + 2), t[n + 2], None::<char>));
        assert(Seq::<Seq<char>>::empty().push(s) =~= seq![s]);
    } else {
        let t = s.push('\n');
        assert(csv_field(s) + seq!['\n'] =~= t);
        lemma_csv_plain_run(s, s.len() as int);
        assert(s.take(s.len() as int) =~= s);
        assert(t[s.len() as int] == '\n');
        assert(csv_run(t, s.len() as int + 1) == csv_step(csv_run(t, s.len() as int), t[s.len() as int], None::<char>));
        assert(Seq::<Seq<char>>::empty().push(s) =~= seq![s]);
    }
}

/// The first position of `pat` in `hay`, as `str::find` gives it for text
/// of single characters.
pub fn find_text(hay: &str, pat: &str) -> (r: Option<usize>)
    ensures
        match find_sub(hay@, pat@) {
            Some(i) => r == Some(i as usize),
            None => r is None,
        },
{
    let v = chars_of(hay);
    let w = chars_of(pat);
    let m = w.len();
    if m > v.len() {
        return None;
    }
    let mut p: usize = 0;
    while p <= v.len() - m
        invariant
            m == w@.len() == pat@.len(),
            w@ == pat@,
            v@ == hay@,
            m <= v.len(),
            p <= v.len() - m + 1,
            forall|j: int| 0 <= j < p ==> #[trigger] v@.subrange(j, j + m) != pat@,
        decreases v.len() + 1 - p,
    {
        let mut q: usize = 0;
        while q < m && v[p + q] == w[q]
            invariant
                q <= m,
                p + m <= v.len(),
                m == w@.len(),
                forall|j: int| 0 <= j < q ==> v@[p + j] == w@[j],
            decreases m - q,
        {
            q += 1;
        }
        if q == m {
            proof {
                assert(v@.subrange(p as int, p + m) =~= pat@);
                lemma_find_sub_at(hay@, pat@, p as int);
            }
            return Some(p);
        }
        proof {
            assert(v@.subrange(p as int, p + m)[q as int] == v@[p + q]);
        }
        p += 1;
    }
    proof {
        lemma_find_sub_at(hay@, pat@, p as int);
    }
    None
}

} // verus!

//! Small verified text utilities: equality, prefix tests, splitting,
//! trimming, identifier normalization, and decimal conversion.

use vstd::prelude::*;

verus! {

/// Character-for-character equality of two string slices.
pub fn str_eq(a: &str, b: &str) -> (r: bool)
    ensures
        r == (a@ == b@),
{
    let alen: usize = a.unicode_len();
    let blen: usize = b.unicode_len();
    if alen != blen {
        proof {
            assert(a@ != b@);
        }
        return false;
    }
    let mut i: usize = 0;
    while i < alen
        invariant
            i <= alen,
            alen == a@.len(),
            alen == b@.len(),
            forall|k: int| 0 <= k < i ==> a@[k] == b@[k],
        decreases alen - i,
    {
        if a.get_char(i) != b.get_char(i) {
            proof {
                assert(a@[i as int] != b@[i as int]);
            }
            return false;
        }
        i = i + 1;
    }
    proof {
        assert(a@ =~= b@);
    }
    true
}

/// Whether `p@` is a prefix of `s@`.
pub fn starts_with_str(s: &str, p: &str) -> (r: bool)
    ensures
        r == p@.is_prefix_of(s@),
{
    let slen: usize = s.unicode_len();
    let plen: usize = p.unicode_len();
    if plen > slen {
        return false;
    }
    let mut i: usize = 0;
    while i < plen
        invariant
            i <= plen,
            plen <= slen,
            slen == s@.len(),
            plen == p@.len(),
            forall|k: int| 0 <= k < i ==> s@[k] == p@[k],
        decreases plen - i,
    {
        if s.get_char(i) != p.get_char(i) {
            proof {
                assert(s@[i as int] != p@[i as int]);
            }
            return false;
        }
        i = i + 1;
    }
    proof {
        assert(p@ =~= s@.subrange(0, p@.len() as int));
    }
    true
}

/// Index of the first occurrence of `c` in `s`, or -1 when absent.
pub open spec fn find_char(s: Seq<char>, c: char) -> int
    decreases s.len(),
{
    if s.len() == 0 {
        -1
    } else if s[0] == c {
        0
    } else {
        let r = find_char(s.skip(1), c);
        if r < 0 {
            -1
        } else {
            r + 1
        }
    }
}

pub proof fn lemma_find_char(s: Seq<char>, c: char)
    ensures
        find_char(s, c) == -1 ==> forall|i: int| 0 <= i < s.len() ==> s[i] != c,
        find_char(s, c) != -1 ==> {
            &&& 0 <= find_char(s, c) < s.len()
            &&& s[find_char(s, c)] == c
            &&& forall|i: int| 0 <= i < find_char(s, c) ==> s[i] != c
        },
    decreases s.len(),
{
    if s.len() > 0 && s[0] != c {
        lemma_find_char(s.skip(1), c);
        assert forall|i: int| 1 <= i < s.len() implies s[i] == s.skip(1)[i - 1] by {}
    }
}

/// The fields of `s` split at every occurrence of `sep`; always at least
/// one field, and splitting the empty string yields one empty field.
pub open spec fn split_char(s: Seq<char>, sep: char) -> Seq<Seq<char>>
    decreases s.len(),
{
    if s.len() == 0 {
        seq![Seq::<char>::empty()]
    } else if s[0] == sep {
        seq![Seq::<char>::empty()] + split_char(s.skip(1), sep)
    } else {
        let rest = split_char(s.skip(1), sep);
        seq![seq![s[0]] + rest[0]] + rest.skip(1)
    }
}

pub proof fn lemma_split_char_len(s: Seq<char>, sep: char)
    ensures
        split_char(s, sep).len() >= 1,
    decreases s.len(),
{
    if s.len() > 0 {
        lemma_split_char_len(s.skip(1), sep);
    }
}

/// A string without the separator splits into itself alone.
pub proof fn lemma_split_char_no_sep(s: Seq<char>, sep: char)
    requires
        forall|i: int| 0 <= i < s.len() ==> s[i] != sep,
    ensures
        split_char(s, sep) == seq![s],
    decreases s.len(),
{
    if s.len() == 0 {
        assert(s =~= Seq::<char>::empty());
        assert(split_char(s, sep) =~= seq![s]);
    } else {
        lemma_split_char_no_sep(s.skip(1), sep);
        let rest = split_char(s.skip(1), sep);
        assert(seq![s[0]] + rest[0] =~= s);
        assert(rest.skip(1) =~= Seq::<Seq<char>>::empty());
        assert(split_char(s, sep) =~= seq![s]);
    }
}

/// Splitting starts with the separator-free part before the first
/// separator as its own field.
pub proof fn lemma_split_char_line(a: Seq<char>, b: Seq<char>, sep: char)
    requires
        forall|i: int| 0 <= i < a.len() ==> a[i] != sep,
    ensures
        split_char(a + seq![sep] + b, sep) == seq![a] + split_char(b, sep),
    decreases a.len(),
{
    let s = a + seq![sep] + b;
    if a.len() == 0 {
        assert(s[0] == sep);
        assert(s.skip(1) =~= b);
        assert(a =~= Seq::<char>::empty());
        assert(seq![Seq::<char>::empty()] + split_char(b, sep) =~= seq![a] + split_char(b, sep));
    } else {
        assert(s[0] == a[0]);
        assert(s[0] != sep);
        assert(s.skip(1) =~= a.skip(1) + seq![sep] + b);
        lemma_split_char_line(a.skip(1), b, sep);
        let rest = split_char(s.skip(1), sep);
        assert(rest == seq![a.skip(1)] + split_char(b, sep));
        assert(rest[0] == a.skip(1));
        assert(seq![s[0]] + rest[0] =~= a);
        assert(rest.skip(1) =~= split_char(b, sep));
        assert(split_char(s, sep) =~= seq![a] + split_char(b, sep));
    }
}

/// Splits `s` at every occurrence of `sep`.
pub fn split_on(s: &str, sep: char) -> (r: Vec<String>)
    ensures
        r.deep_view() == split_char(s@, sep),
{
    let len: usize = s.unicode_len();
    let mut fields: Vec<String> = Vec::new();
    let mut cur: String = String::new();
    let mut i: usize = 0;
    proof {
        lemma_split_char_len(s@, sep);
        assert(s@.skip(0) =~= s@);
        assert(split_char(s@, sep) =~= fields.deep_view() + seq![cur@ + split_char(s@.skip(0), sep)[0]]
            + split_char(s@.skip(0), sep).skip(1));
    }
    while i < len
        invariant
            i <= len,
            len == s@.len(),
            split_char(s@.skip(i as int), sep).len() >= 1,
            split_char(s@, sep) == fields.deep_view() + seq![cur@ + split_char(s@.skip(i as int), sep)[0]]
                + split_char(s@.skip(i as int), sep).skip(1),
        decreases len - i,
    {
        let ghost rest = s@.skip(i as int);
        let ghost rest1 = s@.skip(i as int + 1);
        let ghost old_fields = fields.deep_view();
        let ghost old_cur = cur@;
        proof {
            assert(rest.len() > 0);
            assert(rest[0] == s@[i as int]);
            assert(rest.skip(1) =~= rest1);
            lemma_split_char_len(rest1, sep);
        }
        let c = s.get_char(i);
        if c == sep {
            proof {
                assert(split_char(rest, sep) == seq![Seq::<char>::empty()] + split_char(rest1, sep));
                assert(old_cur + split_char(rest, sep)[0] =~= old_cur);
            }
            fields.push(cur);
            cur = String::new();
            proof {
                assert(fields.deep_view() =~= old_fields.push(old_cur));
                assert(split_char(rest, sep).skip(1) =~= split_char(rest1, sep));
                assert(split_char(rest1, sep) =~= seq![split_char(rest1, sep)[0]] + split_char(rest1, sep).skip(1));
                assert(split_char(s@, sep) =~= fields.deep_view() + seq![cur@ + split_char(rest1, sep)[0]]
                    + split_char(rest1, sep).skip(1));
            }
        } else {
            let piece = s.substring_char(i, i + 1);
            proof {
                assert(piece@ =~= seq![s@[i as int]]);
                assert(split_char(rest, sep) == seq![seq![rest[0]] + split_char(rest1, sep)[0]]
                    + split_char(rest1, sep).skip(1));
            }
            cur.append(piece);
            proof {
                assert(cur@ == old_cur + seq![rest[0]]);
                assert(cur@ + split_char(rest1, sep)[0] =~= old_cur + (seq![rest[0]] + split_char(rest1, sep)[0]));
                assert(old_cur + split_char(rest, sep)[0] =~= cur@ + split_char(rest1, sep)[0]);
                assert(split_char(rest, sep).skip(1) =~= split_char(rest1, sep).skip(1));
                assert(split_char(s@, sep) =~= fields.deep_view() + seq![cur@ + split_char(rest1, sep)[0]]
                    + split_char(rest1, sep).skip(1));
            }
        }
        i = i + 1;
    }
    let ghost old_fields = fields.deep_view();
    let ghost old_cur = cur@;
    proof {
        assert(s@.skip(len as int) =~= Seq::<char>::empty());
        assert(split_char(Seq::<char>::empty(), sep) == seq![Seq::<char>::empty()]);
        assert(old_cur + split_char(s@.skip(len as int), sep)[0] =~= old_cur);
        assert(split_char(s@.skip(len as int), sep).skip(1) =~= Seq::<Seq<char>>::empty());
    }
    fields.push(cur);
    proof {
        assert(fields.deep_view() =~= old_fields.push(old_cur));
        assert(fields.deep_view() =~= split_char(s@, sep));
    }
    fields
}

/// Splits `s` at the first occurrence of `sep` into the part before and
/// the part after; `None` when `sep` does not occur.
pub fn split_first(s: &str, sep: char) -> (r: Option<(String, String)>)
    ensures
        find_char(s@, sep) < 0 ==> r is None,
        find_char(s@, sep) >= 0 ==> {
            &&& r is Some
            &&& r->Some_0.0@ == s@.take(find_char(s@, sep))
            &&& r->Some_0.1@ == s@.skip(find_char(s@, sep) + 1)
        },
{
    proof {
        lemma_find_char(s@, sep);
    }
    let len: usize = s.unicode_len();
    let mut i: usize = 0;
    while i < len
        invariant
            i <= len,
            len == s@.len(),
            forall|k: int| 0 <= k < i ==> s@[k] != sep,
        decreases len - i,
    {
        if s.get_char(i) == sep {
            proof {
                assert(find_char(s@, sep) == i as int) by {
                    lemma_find_char(s@, sep);
                    if find_char(s@, sep) < 0 {
                        assert(s@[i as int] != sep);
                    }
                }
            }
            let left = s.substring_char(0, i);
            let right = s.substring_char(i + 1, len);
            proof {
                assert(left@ =~= s@.take(i as int));
                assert(right@ =~= s@.skip(i as int + 1));
            }
            return Some((String::from_str(left), String::from_str(right)));
        }
        i = i + 1;
    }
    proof {
        assert(find_char(s@, sep) < 0) by {
            lemma_find_char(s@, sep);
            if find_char(s@, sep) >= 0 {
                assert(s@[find_char(s@, sep)] == sep);
            }
        }
    }
    None
}

/// The `i`-th comma-separated field of a line, or the empty string when
/// the line has fewer fields.
pub open spec fn field_of_line(line: Seq<char>, i: int) -> Seq<char> {
    let fs = split_char(line, ',');
    if 0 <= i < fs.len() {
        fs[i]
    } else {
        Seq::empty()
    }
}

/// One raw line with a single trailing carriage return removed.
pub open spec fn strip_cr(line: Seq<char>) -> Seq<char> {
    if line.len() > 0 && line.last() == '\r' {
        line.drop_last()
    } else {
        line
    }
}

/// The lines of `s`: split at every newline, where a final newline ends
/// the last line rather than opening an empty one, and a carriage return
/// directly before a newline is dropped.  The empty string has no lines.
pub open spec fn spec_lines(s: Seq<char>) -> Seq<Seq<char>> {
    if s.len() == 0 {
        Seq::empty()
    } else {
        let core = if s.last() == '\n' {
            s.drop_last()
        } else {
            s
        };
        split_char(core, '\n').map(|i: int, l: Seq<char>| strip_cr(l))
    }
}

/// Splits `s` into its lines.
pub fn split_lines(s: &str) -> (r: Vec<String>)
    ensures
        r.deep_view() == spec_lines(s@),
{
    let len: usize = s.unicode_len();
    if len == 0 {
        let r: Vec<String> = Vec::new();
        proof {
            assert(r.deep_view() =~= spec_lines(s@));
        }
        return r;
    }
    let core: &str = if s.get_char(len - 1) == '\n' {
        let c = s.substring_char(0, len - 1);
        proof {
            assert(c@ =~= s@.drop_last());
        }
        c
    } else {
        s
    };
    let raw = split_on(core, '\n');
    let ghost pieces = split_char(core@, '\n');
    let mut out: Vec<String> = Vec::new();
    let n = raw.len();
    let mut i: usize = 0;
    while i < n
        invariant
            i <= n,
            n == raw.len(),
            raw.deep_view() == pieces,
            out.deep_view() =~= pieces.take(i as int).map(|k: int, l: Seq<char>| strip_cr(l)),
        decreases n - i,
    {
        let ghost prev = out.deep_view();
        let line = &raw[i];
        let llen = line.unicode_len();
        proof {
            assert(line@ == pieces[i as int]);
        }
        if llen > 0 && line.as_str().get_char(llen - 1) == '\r' {
            let stripped = line.as_str().substring_char(0, llen - 1);
            proof {
                assert(stripped@ =~= strip_cr(pieces[i as int]));
            }
            out.push(String::from_str(stripped));
        } else {
            proof {
                assert(line@ =~= strip_cr(pieces[i as int]));
            }
            out.push(line.clone());
        }
        proof {
            assert(out.deep_view() =~= prev.push(strip_cr(pieces[i as int])));
            assert(out.deep_view() =~= pieces.take(i as int + 1).map(|k: int, l: Seq<char>| strip_cr(l)));
        }
        i = i + 1;
    }
    proof {
        assert(pieces.take(n as int) =~= pieces);
        assert(out.deep_view() =~= spec_lines(s@));
    }
    out
}

/// ASCII whitespace, the characters trimmed from identifier ends.
pub open spec fn is_space(c: char) -> bool {
    c == ' ' || c == '\t' || c == '\n' || c == '\r' || c == '\u{b}' || c == '\u{c}'
}

pub open spec fn trim_left_ws(s: Seq<char>) -> Seq<char>
    decreases s.len(),
{
    if s.len() > 0 && is_space(s[0]) {
        trim_left_ws(s.skip(1))
    } else {
        s
    }
}

pub open spec fn trim_right_ws(s: Seq<char>) -> Seq<char>
    decreases s.len(),
{
    if s.len() > 0 && is_space(s.last()) {
        trim_right_ws(s.drop_last())
    } else {
        s
    }
}

pub open spec fn trim_left_q(s: Seq<char>) -> Seq<char>
    decreases s.len(),
{
    if s.len() > 0 && s[0] == '"' {
        trim_left_q(s.skip(1))
    } else {
        s
    }
}

pub open spec fn trim_right_q(s: Seq<char>) -> Seq<char>
    decreases s.len(),
{
    if s.len() > 0 && s.last() == '"' {
        trim_right_q(s.drop_last())
    } else {
        s
    }
}

proof fn lemma_trim_left_ws_skip(s: Seq<char>, a: int)
    requires
        0 <= a <= s.len(),
        forall|k: int| 0 <= k < a ==> is_space(s[k]),
        a < s.len() ==> !is_space(s[a]),
    ensures
        trim_left_ws(s) == s.skip(a),
    decreases a,
{
    if a == 0 {
        assert(s.skip(0) =~= s);
    } else {
        lemma_trim_left_ws_skip(s.skip(1), a - 1);
        assert(s.skip(1).skip(a - 1) =~= s.skip(a));
    }
}

proof fn lemma_trim_right_ws_take(s: Seq<char>, b: int)
    requires
        0 <= b <= s.len(),
        forall|k: int| b <= k < s.len() ==> is_space(s[k]),
        b > 0 ==> !is_space(s[b - 1]),
    ensures
        trim_right_ws(s) == s.take(b),
    decreases s.len() - b,
{
    if b == s.len() {
        assert(s.take(b) =~= s);
    } else {
        lemma_trim_right_ws_take(s.drop_last(), b);
        assert(s.drop_last().take(b) =~= s.take(b));
    }
}

proof fn lemma_trim_left_q_skip(s: Seq<char>, a: int)
    requires
        0 <= a <= s.len(),
        forall|k: int| 0 <= k < a ==> s[k] == '"',
        a < s.len() ==> s[a] != '"',
    ensures
        trim_left_q(s) == s.skip(a),
    decreases a,
{
    if a == 0 {
        assert(s.skip(0) =~= s);
    } else {
        lemma_trim_left_q_skip(s.skip(1), a - 1);
        assert(s.skip(1).skip(a - 1) =~= s.skip(a));
    }
}

proof fn lemma_trim_right_q_take(s: Seq<char>, b: int)
    requires
        0 <= b <= s.len(),
        forall|k: int| b <= k < s.len() ==> s[k] == '"',
        b > 0 ==> s[b - 1] != '"',
    ensures
        trim_right_q(s) == s.take(b),
    decreases s.len() - b,
{
    if b == s.len() {
        assert(s.take(b) =~= s);
    } else {
        lemma_trim_right_q_take(s.drop_last(), b);
        assert(s.drop_last().take(b) =~= s.take(b));
    }
}

fn is_space_char(c: char) -> (r: bool)
    ensures
        r == is_space(c),
{
    c == ' ' || c == '\t' || c == '\n' || c == '\r' || c == '\u{b}' || c == '\u{c}'
}

/// Removes leading and trailing ASCII whitespace.
pub fn trim_spaces(s: &str) -> (r: String)
    ensures
        r@ == trim_right_ws(trim_left_ws(s@)),
{
    let len: usize = s.unicode_len();
    let mut a: usize = 0;
    while a < len && is_space_char(s.get_char(a))
        invariant
            a <= len,
            len == s@.len(),
            forall|k: int| 0 <= k < a ==> is_space(s@[k]),
        decreases len - a,
    {
        a = a + 1;
    }
    proof {
        lemma_trim_left_ws_skip(s@, a as int);
    }
    let mut b: usize = len;
    while b > a && is_space_char(s.get_char(b - 1))
        invariant
            a <= b <= len,
            len == s@.len(),
            forall|k: int| b <= k < len ==> is_space(s@[k]),
        decreases b,
    {
        b = b - 1;
    }
    proof {
        let t = s@.skip(a as int);
        assert(forall|k: int| b - a <= k < t.len() ==> is_space(t[k]));
        if b > a {
            assert(!is_space(t[b - a - 1]));
        } else {
            assert(forall|k: int| 0 <= k < a ==> is_space(s@[k]));
            if b - a > 0 {
            }
        }
        lemma_trim_right_ws_take(t, b - a);
        assert(t.take(b - a) =~= s@.subrange(a as int, b as int));
    }
    let r = s.substring_char(a, b);
    String::from_str(r)
}

/// Removes leading and trailing double quotes.
pub fn trim_quotes(s: &str) -> (r: String)
    ensures
        r@ == trim_right_q(trim_left_q(s@)),
{
    let len: usize = s.unicode_len();
    let mut a: usize = 0;
    while a < len && s.get_char(a) == '"'
        invariant
            a <= len,
            len == s@.len(),
            forall|k: int| 0 <= k < a ==> s@[k] == '"',
        decreases len - a,
    {
        a = a + 1;
    }
    proof {
        lemma_trim_left_q_skip(s@, a as int);
    }
    let mut b: usize = len;
    while b > a && s.get_char(b - 1) == '"'
        invariant
            a <= b <= len,
            len == s@.len(),
            forall|k: int| b <= k < len ==> s@[k] == '"',
        decreases b,
    {
        b = b - 1;
    }
    proof {
        let t = s@.skip(a as int);
        assert(forall|k: int| b - a <= k < t.len() ==> t[k] == '"');
        lemma_trim_right_q_take(t, b - a);
        assert(t.take(b - a) =~= s@.subrange(a as int, b as int));
    }
    let r = s.substring_char(a, b);
    String::from_str(r)
}

/// `s` with every comma removed.
pub open spec fn strip_commas(s: Seq<char>) -> Seq<char>
    decreases s.len(),
{
    if s.len() == 0 {
        s
    } else if s.last() == ',' {
        strip_commas(s.drop_last())
    } else {
        strip_commas(s.drop_last()).push(s.last())
    }
}

fn remove_commas(s: &str) -> (r: String)
    ensures
        r@ == strip_commas(s@),
{
    let len: usize = s.unicode_len();
    let mut out = String::new();
    let mut i: usize = 0;
    proof {
        assert(s@.take(0) =~= Seq::<char>::empty());
    }
    while i < len
        invariant
            i <= len,
            len == s@.len(),
            out@ == strip_commas(s@.take(i as int)),
        decreases len - i,
    {
        proof {
            assert(s@.take(i as int + 1).drop_last() =~= s@.take(i as int));
            assert(s@.take(i as int + 1).last() == s@[i as int]);
        }
        let c = s.get_char(i);
        if c != ',' {
            let piece = s.substring_char(i, i + 1);
            proof {
                assert(piece@ =~= seq![s@[i as int]]);
            }
            out.append(piece);
            proof {
                assert(out@ =~= strip_commas(s@.take(i as int)).push(s@[i as int]));
            }
        }
        i = i + 1;
    }
    proof {
        assert(s@.take(len as int) =~= s@);
    }
    out
}

/// Removing commas from a comma-free string changes nothing.
pub proof fn lemma_strip_commas_id(s: Seq<char>)
    requires
        forall|i: int| 0 <= i < s.len() ==> s[i] != ',',
    ensures
        strip_commas(s) == s,
    decreases s.len(),
{
    if s.len() > 0 {
        lemma_strip_commas_id(s.drop_last());
        assert(strip_commas(s) =~= s);
    }
}

/// A raw identifier normalized for use as a key: commas removed, then
/// surrounding whitespace trimmed, then surrounding quotes trimmed.
pub open spec fn normalize_id(s: Seq<char>) -> Seq<char> {
    trim_right_q(trim_left_q(trim_right_ws(trim_left_ws(strip_commas(s)))))
}

/// Normalizes a raw player identifier.
pub fn trimmed_username(username: &str) -> (r: String)
    ensures
        r@ == normalize_id(username@),
{
    let no_commas = remove_commas(username);
    let trimmed = trim_spaces(no_commas.as_str());
    trim_quotes(trimmed.as_str())
}

/// A decimal digit.
pub open spec fn is_digit(c: char) -> bool {
    48 <= c as u32 <= 57
}

pub open spec fn all_digits(s: Seq<char>) -> bool {
    forall|i: int| 0 <= i < s.len() ==> is_digit(s[i])
}

/// The non-negative value of a sequence of decimal digits.
pub open spec fn digits_val(s: Seq<char>) -> int
    decreases s.len(),
{
    if s.len() == 0 {
        0
    } else {
        digits_val(s.drop_last()) * 10 + (s.last() as u32 - 48)
    }
}

/// The digit part of an integer literal: everything after one optional
/// leading sign.
pub open spec fn int_body(s: Seq<char>) -> Seq<char> {
    if s.len() > 0 && (s[0] == '+' || s[0] == '-') {
        s.skip(1)
    } else {
        s
    }
}

pub open spec fn is_negative_str(s: Seq<char>) -> bool {
    s.len() > 0 && s[0] == '-'
}

/// Whether `s` is a well-formed decimal integer: an optional sign
/// followed by at least one digit.
pub open spec fn is_int_str(s: Seq<char>) -> bool {
    int_body(s).len() > 0 && all_digits(int_body(s))
}

/// The mathematical value of a well-formed decimal integer string.
pub open spec fn int_str_val(s: Seq<char>) -> int {
    if is_negative_str(s) {
        -digits_val(int_body(s))
    } else {
        digits_val(int_body(s))
    }
}

pub proof fn lemma_digits_val_nonneg(s: Seq<char>)
    requires
        all_digits(s),
    ensures
        digits_val(s) >= 0,
    decreases s.len(),
{
    if s.len() > 0 {
        assert(all_digits(s.drop_last())) by {
            assert(forall|i: int| 0 <= i < s.len() - 1 ==> s.drop_last()[i] == s[i]);
        }
        lemma_digits_val_nonneg(s.drop_last());
    }
}

/// Appending digits never shrinks the value.
proof fn lemma_digits_val_take_le(s: Seq<char>, k: int)
    requires
        all_digits(s),
        0 <= k <= s.len(),
    ensures
        digits_val(s.take(k)) <= digits_val(s),
    decreases s.len() - k,
{
    assert(all_digits(s.take(k))) by {
        assert(forall|i: int| 0 <= i < k ==> s.take(k)[i] == s[i]);
    }
    if k == s.len() {
        assert(s.take(k) =~= s);
    } else {
        lemma_digits_val_take_le(s, k + 1);
        let t = s.take(k + 1);
        assert(t.drop_last() =~= s.take(k));
        lemma_digits_val_nonneg(s.take(k));
        assert(digits_val(t) == digits_val(s.take(k)) * 10 + (s[k] as u32 - 48));
        assert(digits_val(s.take(k)) * 10 >= digits_val(s.take(k)));
    }
}

/// Parses a decimal integer with an optional leading sign, as `i64`;
/// `None` on anything malformed and on values outside the `i64` range.
pub fn parse_i64(s: &str) -> (r: Option<i64>)
    ensures
        r is Some <==> (is_int_str(s@) && i64::MIN <= int_str_val(s@) <= i64::MAX),
        r is Some ==> r->Some_0 as int == int_str_val(s@),
{
    let len: usize = s.unicode_len();
    if len == 0 {
        return None;
    }
    let first = s.get_char(0);
    let neg = first == '-';
    let start: usize = if first == '-' || first == '+' {
        1
    } else {
        0
    };
    let ghost body = int_body(s@);
    proof {
        assert(body =~= s@.skip(start as int));
    }
    if start == len {
        return None;
    }
    let mut acc: u64 = 0;
    let mut i: usize = start;
    proof {
        assert(body.take(0) =~= Seq::<char>::empty());
    }
    while i < len
        invariant
            start <= i <= len,
            len == s@.len(),
            body == int_body(s@),
            body == s@.skip(start as int),
            body.len() == len - start,
            neg == is_negative_str(s@),
            all_digits(body.take(i - start)),
            acc as int == digits_val(body.take(i - start)),
        decreases len - i,
    {
        let c = s.get_char(i);
        let cu = c as u32;
        proof {
            assert(body[i - start] == s@[i as int]);
        }
        if cu < 48 || cu > 57 {
            proof {
                assert(!is_digit(body[i - start]));
                assert(!all_digits(body));
                assert(!is_int_str(s@));
            }
            return None;
        }
        let d: u64 = (cu - 48) as u64;
        let ghost j = i - start;
        proof {
            assert(body.take(j + 1).drop_last() =~= body.take(j as int));
            assert(body.take(j + 1).last() == body[j as int]);
            assert(all_digits(body.take(j + 1))) by {
                assert(forall|k: int| 0 <= k < j + 1 ==> body.take(j + 1)[k] == body[k]);
            }
        }
        let step = match acc.checked_mul(10) {
            Some(m) => m.checked_add(d),
            None => None,
        };
        match step {
            Some(v) => {
                acc = v;
            },
            None => {
                proof {
                    assert(digits_val(body.take(j + 1)) == acc as int * 10 + (body[j as int] as u32 - 48));
                    assert(digits_val(body.take(j + 1)) > u64::MAX as int);
                    if all_digits(body) {
                        lemma_digits_val_take_le(body, j + 1);
                        assert(digits_val(body) > u64::MAX as int);
                        if is_negative_str(s@) {
                            assert(int_str_val(s@) == -digits_val(body));
                            assert(int_str_val(s@) < i64::MIN);
                        } else {
                            assert(int_str_val(s@) > i64::MAX);
                        }
                    } else {
                        assert(!is_int_str(s@));
                    }
                }
                return None;
            },
        }
        i = i + 1;
    }
    proof {
        assert(body.take(len - start) =~= body);
    }
    if neg {
        if acc > 9223372036854775808u64 {
            proof {
                assert(int_str_val(s@) < i64::MIN);
            }
            None
        } else if acc == 9223372036854775808u64 {
            Some(i64::MIN)
        } else {
            Some(-(acc as i64))
        }
    } else {
        if acc > 9223372036854775807u64 {
            proof {
                assert(int_str_val(s@) > i64::MAX);
            }
            None
        } else {
            Some(acc as i64)
        }
    }
}

/// The decimal digit with value `d`.
pub open spec fn digit_char(d: int) -> char {
    if d == 0 {
        '0'
    } else if d == 1 {
        '1'
    } else if d == 2 {
        '2'
    } else if d == 3 {
        '3'
    } else if d == 4 {
        '4'
    } else if d == 5 {
        '5'
    } else if d == 6 {
        '6'
    } else if d == 7 {
        '7'
    } else if d == 8 {
        '8'
    } else {
        '9'
    }
}

/// The decimal rendering of a non-negative integer.
pub open spec fn dec_str(n: int) -> Seq<char>
    recommends
        n >= 0,
    decreases n,
{
    if n < 10 {
        seq![digit_char(n)]
    } else {
        dec_str(n / 10).push(digit_char(n % 10))
    }
}

/// The decimal rendering of an integer, with a minus sign when negative.
pub open spec fn int_str(n: int) -> Seq<char> {
    if n < 0 {
        seq!['-'] + dec_str(-n)
    } else {
        dec_str(n)
    }
}

fn digit_str(d: u64) -> (r: &'static str)
    requires
        d < 10,
    ensures
        r@ == seq![digit_char(d as int)],
{
    proof {
        reveal_strlit("0");
        reveal_strlit("1");
        reveal_strlit("2");
        reveal_strlit("3");
        reveal_strlit("4");
        reveal_strlit("5");
        reveal_strlit("6");
        reveal_strlit("7");
        reveal_strlit("8");
        reveal_strlit("9");
    }
    let r: &'static str = if d == 0 {
        "0"
    } else if d == 1 {
        "1"
    } else if d == 2 {
        "2"
    } else if d == 3 {
        "3"
    } else if d == 4 {
        "4"
    } else if d == 5 {
        "5"
    } else if d == 6 {
        "6"
    } else if d == 7 {
        "7"
    } else if d == 8 {
        "8"
    } else {
        "9"
    };
    proof {
        assert(r@ =~= seq![digit_char(d as int)]);
    }
    r
}

/// Renders a non-negative integer in decimal.
pub fn u64_to_string(n: u64) -> (r: String)
    ensures
        r@ == dec_str(n as int),
    decreases n,
{
    if n < 10 {
        String::from_str(digit_str(n))
    } else {
        let mut s = u64_to_string(n / 10);
        s.append(digit_str(n % 10));
        proof {
            assert(s@ =~= dec_str(n as int));
        }
        s
    }
}

/// Renders an integer in decimal, with a minus sign when negative.
pub fn i64_to_string(n: i64) -> (r: String)
    ensures
        r@ == int_str(n as int),
{
    if n >= 0 {
        u64_to_string(n as u64)
    } else {
        let mag: u64 = if n == i64::MIN {
            9223372036854775808u64
        } else {
            (-n) as u64
        };
        proof {
            assert(mag as int == -(n as int));
            reveal_strlit("-");
        }
        let mut s = String::from_str("-");
        let digits = u64_to_string(mag);
        s.append(digits.as_str());
        proof {
            assert(s@ =~= int_str(n as int));
        }
        s
    }
}

/// Removing commas never introduces a character: the result holds no
/// comma, and no line break when the input held none.
pub proof fn lemma_strip_commas_chars(s: Seq<char>)
    requires
        forall|i: int| 0 <= i < s.len() ==> (s[i] != '\n' && s[i] != '\r'),
    ensures
        forall|i: int|
            0 <= i < strip_commas(s).len() ==> (strip_commas(s)[i] != ',' && strip_commas(s)[i]
                != '\n' && strip_commas(s)[i] != '\r'),
    decreases s.len(),
{
    if s.len() > 0 {
        assert(forall|i: int| 0 <= i < s.len() - 1 ==> s.drop_last()[i] == s[i]);
        lemma_strip_commas_chars(s.drop_last());
        let r0 = strip_commas(s.drop_last());
        if s.last() != ',' {
            let r = strip_commas(s);
            assert(r == r0.push(s.last()));
            assert forall|i: int| 0 <= i < r.len() implies (r[i] != ',' && r[i] != '\n' && r[i]
                != '\r') by {
                if i < r0.len() {
                    assert(r[i] == r0[i]);
                } else {
                    assert(r[i] == s.last());
                    assert(s.last() == s[s.len() - 1]);
                }
            }
        }
    }
}

/// Trimming leading whitespace only removes characters.
pub proof fn lemma_trim_left_ws_chars(s: Seq<char>, bad: char)
    requires
        forall|i: int| 0 <= i < s.len() ==> s[i] != bad,
    ensures
        forall|i: int| 0 <= i < trim_left_ws(s).len() ==> trim_left_ws(s)[i] != bad,
    decreases s.len(),
{
    if s.len() > 0 && is_space(s[0]) {
        assert forall|i: int| 0 <= i < s.skip(1).len() implies s.skip(1)[i] != bad by {
            assert(s.skip(1)[i] == s[i + 1]);
        }
        lemma_trim_left_ws_chars(s.skip(1), bad);
        assert forall|i: int| 0 <= i < trim_left_ws(s).len() implies trim_left_ws(s)[i] != bad by {
            assert(trim_left_ws(s) == trim_left_ws(s.skip(1)));
            assert(trim_left_ws(s.skip(1))[i] != bad);
        }
    } else {
        assert forall|i: int| 0 <= i < trim_left_ws(s).len() implies trim_left_ws(s)[i] != bad by {
            assert(trim_left_ws(s) == s);
            assert(s[i] != bad);
        }
    }
}

/// Trimming trailing whitespace only removes characters.
pub proof fn lemma_trim_right_ws_chars(s: Seq<char>, bad: char)
    requires
        forall|i: int| 0 <= i < s.len() ==> s[i] != bad,
    ensures
        forall|i: int| 0 <= i < trim_right_ws(s).len() ==> trim_right_ws(s)[i] != bad,
    decreases s.len(),
{
    if s.len() > 0 && is_space(s.last()) {
        assert forall|i: int| 0 <= i < s.drop_last().len() implies s.drop_last()[i] != bad by {
            assert(s.drop_last()[i] == s[i]);
        }
        lemma_trim_right_ws_chars(s.drop_last(), bad);
        assert forall|i: int| 0 <= i < trim_right_ws(s).len() implies trim_right_ws(s)[i] != bad by {
            assert(trim_right_ws(s) == trim_right_ws(s.drop_last()));
            assert(trim_right_ws(s.drop_last())[i] != bad);
        }
    } else {
        assert forall|i: int| 0 <= i < trim_right_ws(s).len() implies trim_right_ws(s)[i] != bad by {
            assert(trim_right_ws(s) == s);
            assert(s[i] != bad);
        }
    }
}

/// Trimming leading quotes only removes characters.
pub proof fn lemma_trim_left_q_chars(s: Seq<char>, bad: char)
    requires
        forall|i: int| 0 <= i < s.len() ==> s[i] != bad,
    ensures
        forall|i: int| 0 <= i < trim_left_q(s).len() ==> trim_left_q(s)[i] != bad,
    decreases s.len(),
{
    if s.len() > 0 && s[0] == '"' {
        assert forall|i: int| 0 <= i < s.skip(1).len() implies s.skip(1)[i] != bad by {
            assert(s.skip(1)[i] == s[i + 1]);
        }
        lemma_trim_left_q_chars(s.skip(1), bad);
        assert forall|i: int| 0 <= i < trim_left_q(s).len() implies trim_left_q(s)[i] != bad by {
            assert(trim_left_q(s) == trim_left_q(s.skip(1)));
            assert(trim_left_q(s.skip(1))[i] != bad);
        }
    } else {
        assert forall|i: int| 0 <= i < trim_left_q(s).len() implies trim_left_q(s)[i] != bad by {
            assert(trim_left_q(s) == s);
            assert(s[i] != bad);
        }
    }
}

/// Trimming trailing quotes only removes characters.
pub proof fn lemma_trim_right_q_chars(s: Seq<char>, bad: char)
    requires
        forall|i: int| 0 <= i < s.len() ==> s[i] != bad,
    ensures
        forall|i: int| 0 <= i < trim_right_q(s).len() ==> trim_right_q(s)[i] != bad,
    decreases s.len(),
{
    if s.len() > 0 && s.last() == '"' {
        assert forall|i: int| 0 <= i < s.drop_last().len() implies s.drop_last()[i] != bad by {
            assert(s.drop_last()[i] == s[i]);
        }
        lemma_trim_right_q_chars(s.drop_last(), bad);
        assert forall|i: int| 0 <= i < trim_right_q(s).len() implies trim_right_q(s)[i] != bad by {
            assert(trim_right_q(s) == trim_right_q(s.drop_last()));
            assert(trim_right_q(s.drop_last())[i] != bad);
        }
    } else {
        assert forall|i: int| 0 <= i < trim_right_q(s).len() implies trim_right_q(s)[i] != bad by {
            assert(trim_right_q(s) == s);
            assert(s[i] != bad);
        }
    }
}

/// After trimming leading quotes nothing starts with a quote.
pub proof fn lemma_trim_left_q_head(s: Seq<char>)
    ensures
        trim_left_q(s).len() > 0 ==> trim_left_q(s)[0] != '"',
    decreases s.len(),
{
    if s.len() > 0 && s[0] == '"' {
        lemma_trim_left_q_head(s.skip(1));
    }
}

/// After trimming trailing quotes nothing ends with a quote, and the
/// first character stays what it was.
pub proof fn lemma_trim_right_q_props(s: Seq<char>)
    ensures
        trim_right_q(s).len() > 0 ==> trim_right_q(s).last() != '"',
        trim_right_q(s).len() > 0 ==> trim_right_q(s)[0] == s[0],
    decreases s.len(),
{
    if s.len() > 0 && s.last() == '"' {
        lemma_trim_right_q_props(s.drop_last());
    }
}

} // verus!

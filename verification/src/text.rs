//! Small string utilities with exact specifications over `Seq<char>`.
use vstd::prelude::*;

verus! {

/// The character of a decimal digit.
pub open spec fn digit_char(d: nat) -> char {
    if d == 0 { '0' }
    else if d == 1 { '1' }
    else if d == 2 { '2' }
    else if d == 3 { '3' }
    else if d == 4 { '4' }
    else if d == 5 { '5' }
    else if d == 6 { '6' }
    else if d == 7 { '7' }
    else if d == 8 { '8' }
    else { '9' }
}

/// The decimal rendering of a natural number, without sign or leading zeros.
pub open spec fn decimal(n: nat) -> Seq<char>
    decreases n,
{
    if n < 10 {
        seq![digit_char(n)]
    } else {
        decimal(n / 10).push(digit_char(n % 10))
    }
}

fn digit_str(d: u64) -> (s: &'static str)
    requires
        d < 10,
    ensures
        s@ == seq![digit_char(d as nat)],
{
    proof {
        reveal_strlit("0");
        reveal_strlit("1");
        reveal_strlit("2");
        reveal_strlit("3");
        reveal_strlit("4");
        reveal_strlit("5");
        reveal_strlit("6");
        reveal_strlit("7");
        reveal_strlit("8");
        reveal_strlit("9");
    }
    if d == 0 { "0" }
    else if d == 1 { "1" }
    else if d == 2 { "2" }
    else if d == 3 { "3" }
    else if d == 4 { "4" }
    else if d == 5 { "5" }
    else if d == 6 { "6" }
    else if d == 7 { "7" }
    else if d == 8 { "8" }
    else { "9" }
}

/// Renders `n` in decimal, as `Display` does for unsigned integers.
pub fn decimal_string(n: u64) -> (s: String)
    ensures
        s@ == decimal(n as nat),
    decreases n,
{
    if n < 10 {
        String::from_str(digit_str(n))
    } else {
        let mut s = decimal_string(n / 10);
        s.append(digit_str(n % 10));
        s
    }
}

/// Whether two strings hold the same characters.
pub fn str_eq(a: &str, b: &str) -> (r: bool)
    ensures
        r == (a@ == b@),
{
    let n = a.unicode_len();
    let m = b.unicode_len();
    if n != m {
        return false;
    }
    let mut i: usize = 0;
    while i < n
        invariant
            n == a@.len(),
            m == b@.len(),
            n == m,
            i <= n,
            forall|k: int| 0 <= k < i ==> a@[k] == b@[k],
        decreases n - i,
    {
        if a.get_char(i) != b.get_char(i) {
            return false;
        }
        i = i + 1;
    }
    assert(a@ =~= b@);
    true
}

/// Whether `s` holds the character `c`.
pub fn has_char(s: &str, c: char) -> (r: bool)
    ensures
        r == s@.contains(c),
{
    let n = s.unicode_len();
    let mut i: usize = 0;
    while i < n
        invariant
            n == s@.len(),
            i <= n,
            forall|k: int| 0 <= k < i ==> s@[k] != c,
        decreases n - i,
    {
        if s.get_char(i) == c {
            assert(s@[i as int] == c);
            return true;
        }
        i = i + 1;
    }
    false
}


/// The text of an optional string.
pub open spec fn opt_text(o: Option<String>) -> Option<Seq<char>> {
    match o {
        Some(s) => Some(s@),
        None => None,
    }
}

/// A lower-case hexadecimal digit.
pub open spec fn hex_char(d: nat) -> char {
    if d < 10 {
        digit_char(d)
    } else if d == 10 { 'a' }
    else if d == 11 { 'b' }
    else if d == 12 { 'c' }
    else if d == 13 { 'd' }
    else if d == 14 { 'e' }
    else { 'f' }
}

fn hex_str(d: u32) -> (s: &'static str)
    requires
        d < 16,
    ensures
        s@ == seq![hex_char(d as nat)],
{
    if d < 10 {
        digit_str(d as u64)
    } else {
        proof {
            reveal_strlit("a");
            reveal_strlit("b");
            reveal_strlit("c");
            reveal_strlit("d");
            reveal_strlit("e");
            reveal_strlit("f");
        }
        if d == 10 { "a" }
        else if d == 11 { "b" }
        else if d == 12 { "c" }
        else if d == 13 { "d" }
        else if d == 14 { "e" }
        else { "f" }
    }
}

/// The quote Python's `repr` puts around a string: `"` when the string
/// holds a `'` and no `"`, else `'`.
pub open spec fn repr_quote(s: Seq<char>) -> char {
    if s.contains('\'') && !s.contains('"') { '"' } else { '\'' }
}

/// How Python's `repr` writes one character inside quotes `q`: a
/// backslash, the quote itself, tab, newline and carriage return are
/// escaped by a backslash, the other control characters of ASCII as `\xNN`.
pub open spec fn repr_char(c: char, q: char) -> Seq<char> {
    if c == '\\' {
        seq!['\\', '\\']
    } else if c == q {
        seq!['\\', q]
    } else if c == '\n' {
        seq!['\\', 'n']
    } else if c == '\r' {
        seq!['\\', 'r']
    } else if c == '\t' {
        seq!['\\', 't']
    } else if (c as nat) < 32 || (c as nat) == 127 {
        seq!['\\', 'x', hex_char((c as nat) / 16), hex_char((c as nat) % 16)]
    } else {
        seq![c]
    }
}

/// The characters of `s` as `repr` writes them inside quotes `q`.
pub open spec fn repr_body(s: Seq<char>, q: char) -> Seq<char>
    decreases s.len(),
{
    if s.len() == 0 {
        Seq::empty()
    } else {
        repr_body(s.drop_last(), q) + repr_char(s.last(), q)
    }
}

/// Python's `repr` of a string (for strings whose characters are ASCII or
/// printable).
pub open spec fn py_repr(s: Seq<char>) -> Seq<char> {
    seq![repr_quote(s)] + repr_body(s, repr_quote(s)) + seq![repr_quote(s)]
}

/// Writes `s` the way Python's `repr` does: between the quotes it chooses,
/// with backslashes, that quote and the ASCII control characters escaped.
pub fn py_repr_string(s: &str) -> (r: String)
    ensures
        r@ == py_repr(s@),
{
    let dq = has_char(s, '"');
    let sq = has_char(s, '\'');
    let double = sq && !dq;
    let q: char = if double { '"' } else { '\'' };
    proof {
        reveal_strlit("\"");
        reveal_strlit("'");
    }
    let mut r = String::from_str(if double { "\"" } else { "'" });
    let n = s.unicode_len();
    let mut i: usize = 0;
    while i < n
        invariant
            n == s@.len(),
            i <= n,
            q == repr_quote(s@),
            double == (q == '"'),
            r@ == seq![q] + repr_body(s@.take(i as int), q),
        decreases n - i,
    {
        let c = s.get_char(i);
        let ghost before = r@;
        proof {
            reveal_strlit("\\\\");
            reveal_strlit("\\\"");
            reveal_strlit("\\'");
            reveal_strlit("\\n");
            reveal_strlit("\\r");
            reveal_strlit("\\t");
            reveal_strlit("\\x");
            assert(s@.take(i + 1).drop_last() =~= s@.take(i as int));
            assert(s@.take(i + 1).last() == c);
        }
        if c == '\\' {
            r.append("\\\\");
        } else if c == q {
            if double {
                r.append("\\\"");
            } else {
                r.append("\\'");
            }
        } else if c == '\n' {
            r.append("\\n");
        } else if c == '\r' {
            r.append("\\r");
        } else if c == '\t' {
            r.append("\\t");
        } else if (c as u32) < 32 || (c as u32) == 127 {
            let code = c as u32;
            r.append("\\x");
            r.append(hex_str(code / 16));
            r.append(hex_str(code % 16));
        } else {
            r.append(s.substring_char(i, i + 1));
            assert(s@.subrange(i as int, i + 1) =~= seq![c]);
        }
        assert(r@ =~= before + repr_char(c, q));
        i = i + 1;
    }
    proof {
        reveal_strlit("\"");
        reveal_strlit("'");
    }
    r.append(if double { "\"" } else { "'" });
    assert(s@.take(n as int) =~= s@);
    r
}

/// Whether `repr` writes a character as itself inside either quote: no
/// quote, no backslash, no control character of ASCII.
pub open spec fn repr_plain_char(c: char) -> bool {
    c != '\'' && c != '"' && c != '\\' && (c as nat) >= 32 && (c as nat) != 127
}

proof fn lemma_repr_body_plain(s: Seq<char>, q: char)
    requires
        q == '\'' || q == '"',
        forall|i: int| 0 <= i < s.len() ==> repr_plain_char(#[trigger] s[i]) || (s[i] != q && s[i]
            == (if q == '"' { '\'' } else { '"' })),
    ensures
        repr_body(s, q) == s,
    decreases s.len(),
{
    if s.len() > 0 {
        let d = s.drop_last();
        assert forall|i: int| 0 <= i < d.len() implies repr_plain_char(#[trigger] d[i]) || (d[i] != q
            && d[i] == (if q == '"' { '\'' } else { '"' })) by {
            assert(d[i] == s[i]);
        }
        lemma_repr_body_plain(d, q);
        assert(repr_plain_char(s[s.len() - 1]) || s[s.len() - 1] != q);
        assert(d.push(s.last()) =~= s);
    }
}

/// A string of plain characters is written by `repr` between single
/// quotes as it is; one that also holds single quotes but no double quote
/// is written between double quotes as it is.
pub proof fn lemma_repr_of_plain_text(s: Seq<char>)
    ensures
        (forall|i: int| 0 <= i < s.len() ==> repr_plain_char(#[trigger] s[i])) ==> py_repr(s) == seq![
            '\'',
        ] + s + seq!['\''],
        (forall|i: int| 0 <= i < s.len() ==> repr_plain_char(#[trigger] s[i]) || s[i] == '\'') && s.contains(
            '\'',
        ) ==> py_repr(s) == seq!['"'] + s + seq!['"'],
{
    if forall|i: int| 0 <= i < s.len() ==> repr_plain_char(#[trigger] s[i]) {
        assert(!s.contains('\'')) by {
            if s.contains('\'') {
                let i = choose|i: int| 0 <= i < s.len() && s[i] == '\'';
                assert(repr_plain_char(s[i]));
            }
        }
        lemma_repr_body_plain(s, '\'');
    }
    if (forall|i: int| 0 <= i < s.len() ==> repr_plain_char(#[trigger] s[i]) || s[i] == '\'') && s.contains(
        '\'',
    ) {
        assert(!s.contains('"')) by {
            if s.contains('"') {
                let i = choose|i: int| 0 <= i < s.len() && s[i] == '"';
                assert(repr_plain_char(s[i]) || s[i] == '\'');
            }
        }
        lemma_repr_body_plain(s, '"');
    }
}

} // verus!

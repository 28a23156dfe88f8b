//! Text-level helpers: lexicographic ordering of character sequences, metric
//! and label name validation, escaping for the exposition format, and decimal
//! rendering of integer values.

use vstd::prelude::*;

verus! {

/// Strict lexicographic order on character sequences, by code point.
pub open spec fn chars_lt(a: Seq<char>, b: Seq<char>) -> bool
    decreases a.len(),
{
    if b.len() == 0 {
        false
    } else if a.len() == 0 {
        true
    } else if a[0] != b[0] {
        (a[0] as u32) < (b[0] as u32)
    } else {
        chars_lt(a.drop_first(), b.drop_first())
    }
}

/// Comparing two sequences that agree on their first `i` characters is the
/// same as comparing the remainders.
proof fn lemma_chars_lt_skip(a: Seq<char>, b: Seq<char>, i: int)
    requires
        0 <= i <= a.len(),
        i <= b.len(),
        forall|j: int| 0 <= j < i ==> a[j] == b[j],
    ensures
        chars_lt(a, b) == chars_lt(a.skip(i), b.skip(i)),
    decreases i,
{
    if i > 0 {
        assert(a.len() > 0 && b.len() > 0);
        assert(a[0] == b[0]);
        assert(forall|j: int| 0 <= j < i - 1 ==> a.drop_first()[j] == b.drop_first()[j]);
        lemma_chars_lt_skip(a.drop_first(), b.drop_first(), i - 1);
        assert(a.drop_first().skip(i - 1) =~= a.skip(i));
        assert(b.drop_first().skip(i - 1) =~= b.skip(i));
    } else {
        assert(a.skip(0) =~= a);
        assert(b.skip(0) =~= b);
    }
}

/// Decides the strict lexicographic order `chars_lt` on two strings.
pub fn str_lt(a: &str, b: &str) -> (r: bool)
    ensures
        r == chars_lt(a@, b@),
{
    let alen = a.unicode_len();
    let blen = b.unicode_len();
    let mut i: usize = 0;
    loop
        invariant
            0 <= i <= alen,
            i <= blen,
            alen == a@.len(),
            blen == b@.len(),
            forall|j: int| 0 <= j < i ==> a@[j] == b@[j],
        decreases blen - i,
    {
        if i == blen {
            proof {
                lemma_chars_lt_skip(a@, b@, i as int);
            }
            return false;
        }
        if i == alen {
            proof {
                lemma_chars_lt_skip(a@, b@, i as int);
            }
            return true;
        }
        let ca = a.get_char(i);
        let cb = b.get_char(i);
        if ca != cb {
            proof {
                lemma_chars_lt_skip(a@, b@, i as int);
                assert(a@.skip(i as int)[0] == a@[i as int]);
                assert(b@.skip(i as int)[0] == b@[i as int]);
            }
            return (ca as u32) < (cb as u32);
        }
        i = i + 1;
    }
}

/// A character allowed at the start of a metric name: a letter, `_` or `:`.
pub open spec fn metric_name_start(c: char) -> bool {
    ('a' as u32) <= (c as u32) <= ('z' as u32) || ('A' as u32) <= (c as u32) <= ('Z' as u32)
        || c == '_' || c == ':'
}

/// A character allowed in the rest of a metric name.
pub open spec fn metric_name_char(c: char) -> bool {
    metric_name_start(c) || ('0' as u32) <= (c as u32) <= ('9' as u32)
}

/// A character allowed at the start of a label name: a letter or `_`.
pub open spec fn label_name_start(c: char) -> bool {
    ('a' as u32) <= (c as u32) <= ('z' as u32) || ('A' as u32) <= (c as u32) <= ('Z' as u32)
        || c == '_'
}

/// A character allowed in the rest of a label name.
pub open spec fn label_name_char(c: char) -> bool {
    label_name_start(c) || ('0' as u32) <= (c as u32) <= ('9' as u32)
}

/// A well-formed metric family name.
pub open spec fn valid_metric_name(s: Seq<char>) -> bool {
    &&& s.len() > 0
    &&& metric_name_start(s[0])
    &&& forall|i: int| 1 <= i < s.len() ==> metric_name_char(#[trigger] s[i])
}

/// A well-formed label name; names starting with `__` are reserved for the
/// metrics backend and rejected.
pub open spec fn valid_label_name(s: Seq<char>) -> bool {
    &&& s.len() > 0
    &&& label_name_start(s[0])
    &&& forall|i: int| 1 <= i < s.len() ==> label_name_char(#[trigger] s[i])
    &&& !(s.len() >= 2 && s[0] == '_' && s[1] == '_')
}

fn is_metric_name_start(c: char) -> (r: bool)
    ensures
        r == metric_name_start(c),
{
    let u = c as u32;
    ('a' as u32) <= u && u <= ('z' as u32) || ('A' as u32) <= u && u <= ('Z' as u32) || c == '_'
        || c == ':'
}

fn is_metric_name_char(c: char) -> (r: bool)
    ensures
        r == metric_name_char(c),
{
    is_metric_name_start(c) || ('0' as u32) <= (c as u32) && (c as u32) <= ('9' as u32)
}

fn is_label_name_start(c: char) -> (r: bool)
    ensures
        r == label_name_start(c),
{
    let u = c as u32;
    ('a' as u32) <= u && u <= ('z' as u32) || ('A' as u32) <= u && u <= ('Z' as u32) || c == '_'
}

fn is_label_name_char(c: char) -> (r: bool)
    ensures
        r == label_name_char(c),
{
    is_label_name_start(c) || ('0' as u32) <= (c as u32) && (c as u32) <= ('9' as u32)
}

/// Decides `valid_metric_name`.
pub fn is_valid_metric_name(s: &str) -> (r: bool)
    ensures
        r == valid_metric_name(s@),
{
    let len = s.unicode_len();
    if len == 0 {
        return false;
    }
    if !is_metric_name_start(s.get_char(0)) {
        return false;
    }
    let mut i: usize = 1;
    while i < len
        invariant
            1 <= i <= len,
            len == s@.len(),
            forall|j: int| 1 <= j < i ==> metric_name_char(#[trigger] s@[j]),
        decreases len - i,
    {
        if !is_metric_name_char(s.get_char(i)) {
            return false;
        }
        i = i + 1;
    }
    true
}

/// Decides `valid_label_name`.
pub fn is_valid_label_name(s: &str) -> (r: bool)
    ensures
        r == valid_label_name(s@),
{
    let len = s.unicode_len();
    if len == 0 {
        return false;
    }
    if !is_label_name_start(s.get_char(0)) {
        return false;
    }
    if len >= 2 && s.get_char(0) == '_' && s.get_char(1) == '_' {
        return false;
    }
    let mut i: usize = 1;
    while i < len
        invariant
            1 <= i <= len,
            len == s@.len(),
            forall|j: int| 1 <= j < i ==> label_name_char(#[trigger] s@[j]),
        decreases len - i,
    {
        if !is_label_name_char(s.get_char(i)) {
            return false;
        }
        i = i + 1;
    }
    true
}

/// Appends every character of `s` to `out`.
pub fn push_str_chars(out: &mut Vec<char>, s: &str)
    ensures
        final(out)@ == old(out)@ + s@,
{
    let len = s.unicode_len();
    let mut i: usize = 0;
    while i < len
        invariant
            0 <= i <= len,
            len == s@.len(),
            out@ == old(out)@ + s@.take(i as int),
        decreases len - i,
    {
        let c = s.get_char(i);
        out.push(c);
        proof {
            assert(s@.take(i + 1 as int) =~= s@.take(i as int).push(s@[i as int]));
            assert(old(out)@ + s@.take(i + 1 as int) =~= (old(out)@ + s@.take(i as int)).push(
                s@[i as int],
            ));
        }
        i = i + 1;
    }
    proof {
        assert(s@.take(len as int) =~= s@);
    }
}

/// How one character of help text is escaped: backslash and newline get a
/// backslash escape, everything else stands as it is.
pub open spec fn esc_help_char(c: char) -> Seq<char> {
    if c == '\\' {
        seq!['\\', '\\']
    } else if c == '\n' {
        seq!['\\', 'n']
    } else {
        seq![c]
    }
}

/// How one character of a label value is escaped: like help text, with the
/// double quote escaped as well.
pub open spec fn esc_label_char(c: char) -> Seq<char> {
    if c == '"' {
        seq!['\\', '"']
    } else {
        esc_help_char(c)
    }
}

/// Help text with every character escaped.
pub open spec fn esc_help(s: Seq<char>) -> Seq<char>
    decreases s.len(),
{
    if s.len() == 0 {
        Seq::empty()
    } else {
        esc_help_char(s[0]) + esc_help(s.drop_first())
    }
}

/// A label value with every character escaped.
pub open spec fn esc_label(s: Seq<char>) -> Seq<char>
    decreases s.len(),
{
    if s.len() == 0 {
        Seq::empty()
    } else {
        esc_label_char(s[0]) + esc_label(s.drop_first())
    }
}

proof fn lemma_esc_help_push(s: Seq<char>, c: char)
    ensures
        esc_help(s.push(c)) == esc_help(s) + esc_help_char(c),
    decreases s.len(),
{
    if s.len() == 0 {
        assert(s.push(c)[0] == c);
        assert(s.push(c).drop_first() =~= Seq::<char>::empty());
        assert(esc_help(Seq::<char>::empty()) =~= Seq::<char>::empty());
        assert(esc_help(s.push(c)) =~= esc_help(s) + esc_help_char(c));
    } else {
        assert(s.push(c)[0] == s[0]);
        assert(s.push(c).drop_first() =~= s.drop_first().push(c));
        lemma_esc_help_push(s.drop_first(), c);
        assert(esc_help(s.push(c)) =~= esc_help(s) + esc_help_char(c));
    }
}

proof fn lemma_esc_label_push(s: Seq<char>, c: char)
    ensures
        esc_label(s.push(c)) == esc_label(s) + esc_label_char(c),
    decreases s.len(),
{
    if s.len() == 0 {
        assert(s.push(c)[0] == c);
        assert(s.push(c).drop_first() =~= Seq::<char>::empty());
        assert(esc_label(Seq::<char>::empty()) =~= Seq::<char>::empty());
        assert(esc_label(s.push(c)) =~= esc_label(s) + esc_label_char(c));
    } else {
        assert(s.push(c)[0] == s[0]);
        assert(s.push(c).drop_first() =~= s.drop_first().push(c));
        lemma_esc_label_push(s.drop_first(), c);
        assert(esc_label(s.push(c)) =~= esc_label(s) + esc_label_char(c));
    }
}

/// Appends the escaped help text of `s` to `out`.
pub fn push_escaped_help(out: &mut Vec<char>, s: &str)
    ensures
        final(out)@ == old(out)@ + esc_help(s@),
{
    let len = s.unicode_len();
    let mut i: usize = 0;
    while i < len
        invariant
            0 <= i <= len,
            len == s@.len(),
            out@ == old(out)@ + esc_help(s@.take(i as int)),
        decreases len - i,
    {
        let c = s.get_char(i);
        if c == '\\' {
            out.push('\\');
            out.push('\\');
        } else if c == '\n' {
            out.push('\\');
            out.push('n');
        } else {
            out.push(c);
        }
        proof {
            assert(s@.take(i + 1 as int) =~= s@.take(i as int).push(s@[i as int]));
            lemma_esc_help_push(s@.take(i as int), s@[i as int]);
            assert(out@ =~= old(out)@ + esc_help(s@.take(i + 1 as int)));
        }
        i = i + 1;
    }
    proof {
        assert(s@.take(len as int) =~= s@);
    }
}

/// Appends the escaped label value `s` to `out`.
pub fn push_escaped_label(out: &mut Vec<char>, s: &str)
    ensures
        final(out)@ == old(out)@ + esc_label(s@),
{
    let len = s.unicode_len();
    let mut i: usize = 0;
    while i < len
        invariant
            0 <= i <= len,
            len == s@.len(),
            out@ == old(out)@ + esc_label(s@.take(i as int)),
        decreases len - i,
    {
        let c = s.get_char(i);
        if c == '"' {
            out.push('\\');
            out.push('"');
        } else if c == '\\' {
            out.push('\\');
            out.push('\\');
        } else if c == '\n' {
            out.push('\\');
            out.push('n');
        } else {
            out.push(c);
        }
        proof {
            assert(s@.take(i + 1 as int) =~= s@.take(i as int).push(s@[i as int]));
            lemma_esc_label_push(s@.take(i as int), s@[i as int]);
            assert(out@ =~= old(out)@ + esc_label(s@.take(i + 1 as int)));
        }
        i = i + 1;
    }
    proof {
        assert(s@.take(len as int) =~= s@);
    }
}

/// The decimal digit `d` as a character.
pub open spec fn digit_char(d: int) -> char {
    if d == 0 {
        '0'
    } else if d == 1 {
        '1'
    } else if d == 2 {
        '2'
    } else if d == 3 {
        '3'
    } else if d == 4 {
        '4'
    } else if d == 5 {
        '5'
    } else if d == 6 {
        '6'
    } else if d == 7 {
        '7'
    } else if d == 8 {
        '8'
    } else {
        '9'
    }
}

/// The decimal digits of a non-negative integer, most significant first.
pub open spec fn dec_chars(n: int) -> Seq<char>
    decreases n,
{
    if n < 10 {
        seq![digit_char(n)]
    } else {
        dec_chars(n / 10).push(digit_char(n % 10))
    }
}

/// The decimal text of a possibly negative integer.
pub open spec fn int_chars(v: int) -> Seq<char> {
    if v < 0 {
        seq!['-'] + dec_chars(-v)
    } else {
        dec_chars(v)
    }
}

fn digit_to_char(d: u64) -> (c: char)
    requires
        d < 10,
    ensures
        c == digit_char(d as int),
{
    if d == 0 {
        '0'
    } else if d == 1 {
        '1'
    } else if d == 2 {
        '2'
    } else if d == 3 {
        '3'
    } else if d == 4 {
        '4'
    } else if d == 5 {
        '5'
    } else if d == 6 {
        '6'
    } else if d == 7 {
        '7'
    } else if d == 8 {
        '8'
    } else {
        '9'
    }
}

fn push_dec_chars(out: &mut Vec<char>, n: u64)
    ensures
        final(out)@ == old(out)@ + dec_chars(n as int),
    decreases n,
{
    if n < 10 {
        out.push(digit_to_char(n));
        proof {
            assert(out@ =~= old(out)@ + dec_chars(n as int));
        }
    } else {
        push_dec_chars(out, n / 10);
        out.push(digit_to_char(n % 10));
        proof {
            assert(out@ =~= old(out)@ + dec_chars(n as int));
        }
    }
}

/// Appends the decimal text of `v` to `out`.
pub fn push_int_chars(out: &mut Vec<char>, v: i64)
    ensures
        final(out)@ == old(out)@ + int_chars(v as int),
{
    if v < 0 {
        let abs: u64 = ((-(v + 1)) as u64) + 1;
        proof {
            assert(abs as int == -(v as int));
        }
        out.push('-');
        push_dec_chars(out, abs);
        proof {
            assert(out@ =~= old(out)@ + int_chars(v as int));
        }
    } else {
        push_dec_chars(out, v as u64);
    }
}

} // verus!

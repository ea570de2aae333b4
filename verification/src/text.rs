//! Byte- and character-level text helpers shared by request classification,
//! rule matching and identity extraction.
//!
//! Paths, query strings and header values are inspected as UTF-8 bytes, just
//! as `str::ends_with`, `str::split` on an ASCII delimiter and
//! `str::eq_ignore_ascii_case` do; the specifications below are therefore
//! stated over `spec_bytes()` where the operation is byte-oriented.
use vstd::prelude::*;
use vstd::string::*;
use vstd::utf8::*;

verus! {

broadcast use vstd::utf8::group_utf8_lib;

/// Index of the first occurrence of byte `b` in `s`, if any.
pub open spec fn find_byte(s: Seq<u8>, b: u8) -> Option<int>
    decreases s.len(),
{
    if s.len() == 0 {
        None
    } else if s[0] == b {
        Some(0)
    } else {
        match find_byte(s.drop_first(), b) {
            Some(k) => Some(k + 1),
            None => None,
        }
    }
}

/// `find_byte` finds the least index holding `b`, or reports that none does.
pub proof fn lemma_find_byte(s: Seq<u8>, b: u8)
    ensures
        match find_byte(s, b) {
            Some(k) => 0 <= k < s.len() && s[k] == b && forall|j: int| 0 <= j < k ==> s[j] != b,
            None => forall|j: int| 0 <= j < s.len() ==> s[j] != b,
        },
    decreases s.len(),
{
    if s.len() > 0 && s[0] != b {
        lemma_find_byte(s.drop_first(), b);
        match find_byte(s.drop_first(), b) {
            Some(k) => {
                assert forall|j: int| 0 <= j < k + 1 implies s[j] != b by {
                    if j > 0 {
                        assert(s[j] == s.drop_first()[j - 1]);
                    }
                }
            },
            None => {
                assert forall|j: int| 0 <= j < s.len() implies s[j] != b by {
                    if j > 0 {
                        assert(s[j] == s.drop_first()[j - 1]);
                    }
                }
            },
        }
    }
}

/// The least index holding `b` is what `find_byte` reports.
pub proof fn lemma_find_byte_at(s: Seq<u8>, b: u8, k: int)
    requires
        0 <= k < s.len(),
        s[k] == b,
        forall|j: int| 0 <= j < k ==> s[j] != b,
    ensures
        find_byte(s, b) == Some(k),
{
    lemma_find_byte(s, b);
}

/// When no byte of `s` is `b`, `find_byte` reports none.
pub proof fn lemma_find_byte_absent(s: Seq<u8>, b: u8)
    requires
        forall|j: int| 0 <= j < s.len() ==> s[j] != b,
    ensures
        find_byte(s, b) is None,
{
    lemma_find_byte(s, b);
}

/// First occurrence of `b` in `s[from..to]`, as an index into `s`.
pub fn find_byte_in(s: &[u8], from: usize, to: usize, b: u8) -> (r: Option<usize>)
    requires
        from <= to <= s@.len(),
    ensures
        match r {
            Some(k) => from <= k < to && find_byte(s@.subrange(from as int, to as int), b) == Some(
                k - from,
            ),
            None => find_byte(s@.subrange(from as int, to as int), b) is None,
        },
{
    let ghost sub = s@.subrange(from as int, to as int);
    let mut i = from;
    while i < to
        invariant
            from <= i <= to <= s@.len(),
            sub == s@.subrange(from as int, to as int),
            forall|j: int| from <= j < i ==> s@[j] != b,
        decreases to - i,
    {
        if s[i] == b {
            proof {
                assert forall|j: int| 0 <= j < i - from implies sub[j] != b by {
                    assert(sub[j] == s@[j + from]);
                }
                lemma_find_byte_at(sub, b, i - from);
            }
            return Some(i);
        }
        i = i + 1;
    }
    proof {
        assert forall|j: int| 0 <= j < sub.len() implies sub[j] != b by {
            assert(sub[j] == s@[j + from]);
        }
        lemma_find_byte_absent(sub, b);
    }
    None
}

/// Whether `s[from..to]` equals `t`, byte for byte.
pub fn bytes_eq_range(s: &[u8], from: usize, to: usize, t: &[u8]) -> (r: bool)
    requires
        from <= to <= s@.len(),
    ensures
        r == (s@.subrange(from as int, to as int) == t@),
{
    if to - from != t.len() {
        return false;
    }
    let mut i: usize = 0;
    while i < t.len()
        invariant
            from <= to <= s@.len(),
            to - from == t@.len(),
            0 <= i <= t@.len(),
            forall|j: int| 0 <= j < i ==> s@[from + j] == t@[j],
        decreases t@.len() - i,
    {
        if s[from + i] != t[i] {
            assert(s@.subrange(from as int, to as int)[i as int] != t@[i as int]);
            return false;
        }
        i = i + 1;
    }
    assert(s@.subrange(from as int, to as int) =~= t@);
    true
}

/// Whether `s` ends with `suffix`.
pub open spec fn ends_with_bytes(s: Seq<u8>, suffix: Seq<u8>) -> bool {
    suffix.len() <= s.len() && s.subrange(s.len() - suffix.len(), s.len() as int) == suffix
}

/// Whether `s[..end]` ends with `suffix`.
pub fn ends_with_in(s: &[u8], end: usize, suffix: &[u8]) -> (r: bool)
    requires
        end <= s@.len(),
    ensures
        r == ends_with_bytes(s@.subrange(0, end as int), suffix@),
{
    if suffix.len() > end {
        return false;
    }
    let r = bytes_eq_range(s, end - suffix.len(), end, suffix);
    assert(s@.subrange(0, end as int).subrange(end - suffix@.len(), end as int) =~= s@.subrange(
        end - suffix@.len(),
        end as int,
    ));
    r
}

/// Whether `pat` occurs somewhere in `s` (the empty pattern occurs everywhere).
pub open spec fn contains_bytes(s: Seq<u8>, pat: Seq<u8>) -> bool {
    exists|i: int| 0 <= i <= s.len() - pat.len() && #[trigger] s.subrange(i, i + pat.len()) == pat
}

/// Substring search on bytes, as `str::contains` with a `&str` pattern does it.
pub fn contains_in(s: &[u8], pat: &[u8]) -> (r: bool)
    ensures
        r == contains_bytes(s@, pat@),
{
    if pat.len() > s.len() {
        return false;
    }
    let last = s.len() - pat.len();
    let mut i: usize = 0;
    loop
        invariant
            last == s@.len() - pat@.len(),
            pat@.len() <= s@.len() <= usize::MAX,
            0 <= i <= last,
            forall|j: int| 0 <= j < i ==> #[trigger] s@.subrange(j, j + pat@.len()) != pat@,
        decreases last - i,
    {
        if bytes_eq_range(s, i, i + pat.len(), pat) {
            return true;
        }
        if i == last {
            assert(forall|j: int| 0 <= j <= last ==> #[trigger] s@.subrange(j, j + pat@.len()) != pat@);
            return false;
        }
        i = i + 1;
    }
}

/// Equality of two string slices, decided on their UTF-8 bytes.
pub fn str_equals(a: &str, b: &str) -> (r: bool)
    ensures
        r == (a@ == b@),
{
    let ab = a.as_bytes();
    let bb = b.as_bytes();
    let r = bytes_eq_range(ab, 0, ab.len(), bb);
    proof {
        assert(ab@.subrange(0, ab@.len() as int) =~= ab@);
        if r {
            assert(decode_utf8(encode_utf8(a@)) == a@);
            assert(decode_utf8(encode_utf8(b@)) == b@);
        }
    }
    r
}

/// ASCII lower-casing of one byte; other bytes are unchanged.
pub open spec fn ascii_lower(b: u8) -> u8 {
    if 0x41 <= b <= 0x5A {
        (b + 32) as u8
    } else {
        b
    }
}

/// ASCII case-insensitive equality, as `str::eq_ignore_ascii_case` decides it.
pub open spec fn eq_ignore_ascii_case(a: Seq<u8>, b: Seq<u8>) -> bool {
    a.len() == b.len() && forall|i: int| 0 <= i < a.len() ==> ascii_lower(a[i]) == ascii_lower(b[i])
}

fn to_ascii_lower(b: u8) -> (r: u8)
    ensures
        r == ascii_lower(b),
{
    if 0x41 <= b && b <= 0x5A {
        b + 32
    } else {
        b
    }
}

/// Whether `s[from..to]` equals `t` up to ASCII case.
pub fn eq_ignore_ascii_case_range(s: &[u8], from: usize, to: usize, t: &[u8]) -> (r: bool)
    requires
        from <= to <= s@.len(),
    ensures
        r == eq_ignore_ascii_case(s@.subrange(from as int, to as int), t@),
{
    let ghost a = s@.subrange(from as int, to as int);
    if to - from != t.len() {
        return false;
    }
    let mut i: usize = 0;
    while i < t.len()
        invariant
            from <= to <= s@.len(),
            a == s@.subrange(from as int, to as int),
            to - from == t@.len(),
            0 <= i <= t@.len(),
            forall|j: int| 0 <= j < i ==> ascii_lower(a[j]) == ascii_lower(t@[j]),
        decreases t@.len() - i,
    {
        assert(a[i as int] == s@[from + i]);
        if to_ascii_lower(s[from + i]) != to_ascii_lower(t[i]) {
            return false;
        }
        i = i + 1;
    }
    true
}

/// Unicode `White_Space`, the set that `char::is_whitespace` and `str::trim` use.
pub open spec fn is_white_space(c: char) -> bool {
    let u = c as u32;
    ||| 0x9 <= u <= 0xD
    ||| u == 0x20
    ||| u == 0x85
    ||| u == 0xA0
    ||| u == 0x1680
    ||| 0x2000 <= u <= 0x200A
    ||| u == 0x2028
    ||| u == 0x2029
    ||| u == 0x202F
    ||| u == 0x205F
    ||| u == 0x3000
}

/// `s` without its leading white space.
pub open spec fn trim_start_white_space(s: Seq<char>) -> Seq<char>
    decreases s.len(),
{
    if s.len() > 0 && is_white_space(s[0]) {
        trim_start_white_space(s.drop_first())
    } else {
        s
    }
}

/// `s` without its trailing white space.
pub open spec fn trim_end_white_space(s: Seq<char>) -> Seq<char>
    decreases s.len(),
{
    if s.len() > 0 && is_white_space(s.last()) {
        trim_end_white_space(s.drop_last())
    } else {
        s
    }
}

/// `s` without its leading and trailing white space.
pub open spec fn trim_white_space(s: Seq<char>) -> Seq<char> {
    trim_end_white_space(trim_start_white_space(s))
}

/// `str::trim`: the slice without leading and trailing characters of the
/// Unicode `White_Space` property, as its documentation states.
#[verifier::external_body]
pub(crate) fn trim_str(s: &str) -> (r: &str)
    ensures
        r@ == trim_white_space(s@),
{
    s.trim()
}

/// `String::push`: appends one character.
#[verifier::external_body]
pub(crate) fn push_char(s: &mut String, c: char)
    ensures
        final(s)@ == old(s)@.push(c),
{
    s.push(c)
}

} // verus!

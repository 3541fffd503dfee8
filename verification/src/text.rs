//! Character-level text operations: trimming, splitting, searching,
//! UTF-8 byte offsets and ASCII case mapping, each with its specification.

use vstd::prelude::*;
use vstd::utf8::*;
use vstd::std_specs::iter::IteratorSpec;

verus! {

/// The characters of `s`, in order.
pub(crate) fn chars_of(s: &str) -> (r: Vec<char>)
    ensures
        r@ == s@,
{
    let mut it = s.chars();
    let mut r: Vec<char> = Vec::new();
    loop
        invariant_except_break
            r@ + it.remaining() == s@,
            it.decrease() is Some,
        ensures
            r@ == s@,
        decreases it.decrease()->0,
    {
        match it.next() {
            Some(c) => {
                let ghost rest = it.remaining();
                r.push(c);
                assert(r@ + rest =~= s@);
            },
            None => {
                assert(r@ =~= s@);
                break;
            },
        }
    }
    r
}

/// The string made of the characters `v` (`String: FromIterator<char>`).
#[verifier::external_body]
pub(crate) fn string_from_chars(v: &[char]) -> (r: String)
    ensures
        r@ == v@,
{
    v.iter().collect()
}

/// `String::from_utf8`: the text that `bytes` encode, or `None` where they
/// are not well-formed UTF-8.
#[verifier::external_body]
pub(crate) fn utf8_decode(bytes: &[u8]) -> (r: Option<String>)
    ensures
        r is Some <==> valid_utf8(bytes@),
        r matches Some(s) ==> s@ == decode_utf8(bytes@),
{
    String::from_utf8(bytes.to_vec()).ok()
}

/// The characters that `char::is_whitespace` accepts: those with the Unicode
/// `White_Space` property.
pub open spec fn is_white_space(c: char) -> bool {
    ||| '\t' <= c <= '\r'
    ||| c == ' '
    ||| c == '\u{85}'
    ||| c == '\u{a0}'
    ||| c == '\u{1680}'
    ||| '\u{2000}' <= c <= '\u{200a}'
    ||| c == '\u{2028}'
    ||| c == '\u{2029}'
    ||| c == '\u{202f}'
    ||| c == '\u{205f}'
    ||| c == '\u{3000}'
}

/// Which characters a trim removes.
#[derive(Clone, Copy, PartialEq, Eq, Debug)]
pub enum Strip {
    /// Unicode white space, as `str::trim` removes it.
    WhiteSpace,
    /// The double quote, as `str::trim_matches('"')` removes it.
    Quote,
}

pub open spec fn strips(mode: Strip, c: char) -> bool {
    match mode {
        Strip::WhiteSpace => is_white_space(c),
        Strip::Quote => c == '"',
    }
}

/// `s` without its leading characters that `mode` removes.
pub open spec fn trim_front(s: Seq<char>, mode: Strip) -> Seq<char>
    decreases s.len(),
{
    if s.len() > 0 && strips(mode, s[0]) {
        trim_front(s.drop_first(), mode)
    } else {
        s
    }
}

/// `s` without its trailing characters that `mode` removes.
pub open spec fn trim_back(s: Seq<char>, mode: Strip) -> Seq<char>
    decreases s.len(),
{
    if s.len() > 0 && strips(mode, s.last()) {
        trim_back(s.drop_last(), mode)
    } else {
        s
    }
}

/// `s` without the leading and trailing characters that `mode` removes.
pub open spec fn trimmed(s: Seq<char>, mode: Strip) -> Seq<char> {
    trim_back(trim_front(s, mode), mode)
}

fn is_white_space_char(c: char) -> (r: bool)
    ensures
        r == is_white_space(c),
{
    ('\t' <= c && c <= '\r') || c == ' ' || c == '\u{85}' || c == '\u{a0}' || c == '\u{1680}' || (
    '\u{2000}' <= c && c <= '\u{200a}') || c == '\u{2028}' || c == '\u{2029}' || c == '\u{202f}'
        || c == '\u{205f}' || c == '\u{3000}'
}

fn strips_char(mode: Strip, c: char) -> (r: bool)
    ensures
        r == strips(mode, c),
{
    match mode {
        Strip::WhiteSpace => is_white_space_char(c),
        Strip::Quote => c == '"',
    }
}

/// Removes from `s` the leading and trailing characters that `mode` strips.
pub fn trim(s: &[char], mode: Strip) -> (r: Vec<char>)
    ensures
        r@ == trimmed(s@, mode),
{
    let n = s.len();
    let mut i: usize = 0;
    assert(s@.subrange(0, n as int) =~= s@);
    while i < n && strips_char(mode, s[i])
        invariant
            n == s@.len(),
            i <= n,
            trim_front(s@.subrange(i as int, n as int), mode) == trim_front(s@, mode),
        decreases n - i,
    {
        assert(s@.subrange(i as int, n as int).drop_first() =~= s@.subrange(i + 1, n as int));
        i = i + 1;
    }
    assert(trim_front(s@.subrange(i as int, n as int), mode) == s@.subrange(i as int, n as int));
    let mut j: usize = n;
    while j > i && strips_char(mode, s[j - 1])
        invariant
            n == s@.len(),
            i <= j <= n,
            trim_back(s@.subrange(i as int, j as int), mode) == trim_back(
                s@.subrange(i as int, n as int),
                mode,
            ),
        decreases j - i,
    {
        assert(s@.subrange(i as int, j as int).drop_last() =~= s@.subrange(i as int, j - 1));
        j = j - 1;
    }
    assert(trim_back(s@.subrange(i as int, j as int), mode) == s@.subrange(i as int, j as int));
    let mut r: Vec<char> = Vec::new();
    let mut k: usize = i;
    while k < j
        invariant
            n == s@.len(),
            i <= k <= j <= n,
            r@ == s@.subrange(i as int, k as int),
        decreases j - k,
    {
        r.push(s[k]);
        assert(r@ =~= s@.subrange(i as int, k + 1));
        k = k + 1;
    }
    r
}

/// The pieces of `s` between occurrences of `sep`, as `str::split` yields
/// them: always at least one piece, empty pieces included.
pub open spec fn split_char(s: Seq<char>, sep: char) -> Seq<Seq<char>>
    decreases s.len(),
{
    if s.len() == 0 {
        seq![Seq::empty()]
    } else {
        let prev = split_char(s.drop_last(), sep);
        if s.last() == sep {
            prev.push(Seq::empty())
        } else {
            prev.update(prev.len() - 1, prev.last().push(s.last()))
        }
    }
}

pub proof fn lemma_split_char_nonempty(s: Seq<char>, sep: char)
    ensures
        split_char(s, sep).len() >= 1,
    decreases s.len(),
{
    if s.len() > 0 {
        lemma_split_char_nonempty(s.drop_last(), sep);
    }
}

/// The character sequences held by a vector of character vectors.
pub open spec fn char_vecs_view(v: Seq<Vec<char>>) -> Seq<Seq<char>> {
    v.map_values(|x: Vec<char>| x@)
}

/// Splits `s` at every `sep`.
pub fn split(s: &[char], sep: char) -> (parts: Vec<Vec<char>>)
    ensures
        char_vecs_view(parts@) == split_char(s@, sep),
        parts@.len() >= 1,
{
    let n = s.len();
    let mut parts: Vec<Vec<char>> = Vec::new();
    let mut cur: Vec<char> = Vec::new();
    let mut i: usize = 0;
    assert(s@.take(0) =~= Seq::<char>::empty());
    assert(char_vecs_view(parts@).push(cur@) =~= split_char(s@.take(0), sep));
    while i < n
        invariant
            n == s@.len(),
            i <= n,
            char_vecs_view(parts@).push(cur@) == split_char(s@.take(i as int), sep),
        decreases n - i,
    {
        let c = s[i];
        let ghost before = char_vecs_view(parts@).push(cur@);
        proof {
            lemma_split_char_nonempty(s@.take(i as int), sep);
            assert(s@.take(i + 1).drop_last() =~= s@.take(i as int));
            assert(s@.take(i + 1).last() == c);
        }
        if c == sep {
            let ghost old_parts = parts@;
            let ghost old_cur = cur@;
            parts.push(cur);
            cur = Vec::new();
            assert(parts@ == old_parts.push(parts@.last()));
            assert(char_vecs_view(parts@) =~= char_vecs_view(old_parts).push(old_cur));
            assert(char_vecs_view(parts@).push(cur@) =~= before.push(Seq::empty()));
        } else {
            cur.push(c);
            assert(char_vecs_view(parts@).push(cur@) =~= before.update(
                before.len() - 1,
                before.last().push(c),
            ));
        }
        i = i + 1;
    }
    assert(s@.take(n as int) =~= s@);
    let ghost old_parts = parts@;
    let ghost old_cur = cur@;
    parts.push(cur);
    assert(char_vecs_view(parts@) =~= char_vecs_view(old_parts).push(old_cur));
    parts
}

/// `i` is the position of the first `c` in `s`.
pub open spec fn is_first_of(s: Seq<char>, c: char, i: int) -> bool {
    &&& 0 <= i < s.len()
    &&& s[i] == c
    &&& forall|j: int| 0 <= j < i ==> s[j] != c
}

/// `i` is the position of the last `c` in `s`.
pub open spec fn is_last_of(s: Seq<char>, c: char, i: int) -> bool {
    &&& 0 <= i < s.len()
    &&& s[i] == c
    &&& forall|j: int| i < j < s.len() ==> s[j] != c
}

/// Position of the first `c` in `s`, if any (in characters).
pub open spec fn first_of(s: Seq<char>, c: char) -> Option<int> {
    if exists|i: int| is_first_of(s, c, i) {
        Some(choose|i: int| is_first_of(s, c, i))
    } else {
        None
    }
}

/// Position of the last `c` in `s`, if any (in characters).
pub open spec fn last_of(s: Seq<char>, c: char) -> Option<int> {
    if exists|i: int| is_last_of(s, c, i) {
        Some(choose|i: int| is_last_of(s, c, i))
    } else {
        None
    }
}

/// Finds the first `c` in `s`.
pub fn find_first(s: &[char], c: char) -> (r: Option<usize>)
    ensures
        match r {
            Some(i) => first_of(s@, c) == Some(i as int),
            None => first_of(s@, c) is None,
        },
{
    let n = s.len();
    let mut i: usize = 0;
    while i < n
        invariant
            n == s@.len(),
            i <= n,
            forall|j: int| 0 <= j < i ==> s@[j] != c,
        decreases n - i,
    {
        if s[i] == c {
            assert(is_first_of(s@, c, i as int));
            let ghost k = choose|k: int| is_first_of(s@, c, k);
            assert(k == i) by {
                if k < i {
                } else if k > i {
                    assert(s@[i as int] != c);
                }
            }
            return Some(i);
        }
        i = i + 1;
    }
    assert(!exists|i: int| is_first_of(s@, c, i));
    None
}

/// Finds the last `c` in `s`.
pub fn find_last(s: &[char], c: char) -> (r: Option<usize>)
    ensures
        match r {
            Some(i) => last_of(s@, c) == Some(i as int),
            None => last_of(s@, c) is None,
        },
{
    let n = s.len();
    let mut i: usize = n;
    while i > 0
        invariant
            n == s@.len(),
            i <= n,
            forall|j: int| i <= j < n ==> s@[j] != c,
        decreases i,
    {
        if s[i - 1] == c {
            let ghost p = i - 1;
            assert(is_last_of(s@, c, p));
            let ghost k = choose|k: int| is_last_of(s@, c, k);
            assert(k == p) by {
                if k > p {
                } else if k < p {
                    assert(s@[p] != c);
                }
            }
            return Some(i - 1);
        }
        i = i - 1;
    }
    assert(!exists|i: int| is_last_of(s@, c, i));
    None
}

/// `p` occurs in `s` starting at position `i`.
pub open spec fn occurs_at(s: Seq<char>, p: Seq<char>, i: int) -> bool {
    &&& 0 <= i
    &&& i + p.len() <= s.len()
    &&& s.subrange(i, i + p.len()) == p
}

/// `i` is the first position at which `p` occurs in `s`.
pub open spec fn is_first_occurrence(s: Seq<char>, p: Seq<char>, i: int) -> bool {
    &&& occurs_at(s, p, i)
    &&& forall|j: int| 0 <= j < i ==> !occurs_at(s, p, j)
}

/// `p` occurs somewhere in `s` (`str::contains`).
pub open spec fn contains(s: Seq<char>, p: Seq<char>) -> bool {
    exists|i: int| occurs_at(s, p, i)
}

/// First position at which `p` occurs in `s`, if any (in characters).
pub open spec fn first_occurrence(s: Seq<char>, p: Seq<char>) -> Option<int> {
    if exists|i: int| is_first_occurrence(s, p, i) {
        Some(choose|i: int| is_first_occurrence(s, p, i))
    } else {
        None
    }
}

fn occurs_at_exec(s: &[char], p: &[char], i: usize) -> (r: bool)
    requires
        i + p@.len() <= s@.len(),
    ensures
        r == occurs_at(s@, p@, i as int),
{
    let m = p.len();
    let len = s.len();
    let mut k: usize = 0;
    while k < m
        invariant
            m == p@.len(),
            len == s@.len(),
            i + m <= s@.len(),
            k <= m,
            forall|t: int| 0 <= t < k ==> s@[i + t] == p@[t],
        decreases m - k,
    {
        if s[i + k] != p[k] {
            assert(s@.subrange(i as int, i + m)[k as int] != p@[k as int]);
            return false;
        }
        k = k + 1;
    }
    assert(s@.subrange(i as int, i + m) =~= p@);
    true
}

/// Finds the first occurrence of `p` in `s`.
pub fn find_sub(s: &[char], p: &[char]) -> (r: Option<usize>)
    ensures
        match r {
            Some(i) => first_occurrence(s@, p@) == Some(i as int),
            None => first_occurrence(s@, p@) is None && !contains(s@, p@),
        },
{
    let n = s.len();
    let m = p.len();
    if m > n {
        assert forall|i: int| !occurs_at(s@, p@, i) by {}
        assert(!exists|i: int| is_first_occurrence(s@, p@, i));
        return None;
    }
    if m == 0 {
        assert(s@.subrange(0, 0) =~= p@);
        assert(is_first_occurrence(s@, p@, 0));
        let ghost k = choose|k: int| is_first_occurrence(s@, p@, k);
        assert(k == 0);
        return Some(0);
    }
    let mut i: usize = 0;
    while i <= n - m
        invariant
            n == s@.len(),
            m == p@.len(),
            1 <= m <= n,
            i <= n - m + 1,
            forall|j: int| 0 <= j < i ==> !occurs_at(s@, p@, j),
        decreases n - i,
    {
        if occurs_at_exec(s, p, i) {
            assert(is_first_occurrence(s@, p@, i as int));
            let ghost k = choose|k: int| is_first_occurrence(s@, p@, k);
            assert(k == i) by {
                if k < i {
                } else if k > i {
                }
            }
            return Some(i);
        }
        i = i + 1;
    }
    assert forall|j: int| !occurs_at(s@, p@, j) by {
        if 0 <= j < i {
        }
    }
    assert(!exists|j: int| is_first_occurrence(s@, p@, j));
    None
}

/// Whether `p` occurs in `s`.
pub fn contains_chars(s: &[char], p: &[char]) -> (r: bool)
    ensures
        r == contains(s@, p@),
{
    match find_sub(s, p) {
        Some(i) => {
            assert(occurs_at(s@, p@, i as int));
            true
        },
        None => false,
    }
}

/// Number of bytes in the UTF-8 encoding of the first `i` characters of `s`:
/// the byte offset that `str::find` reports for position `i`.
pub open spec fn byte_offset(s: Seq<char>, i: int) -> nat {
    encode_utf8(s.take(i)).len()
}

pub proof fn lemma_encode_utf8_append(a: Seq<char>, b: Seq<char>)
    ensures
        encode_utf8(a + b) == encode_utf8(a) + encode_utf8(b),
    decreases a.len(),
{
    if a.len() == 0 {
        assert(a + b =~= b);
        assert(encode_utf8(a) =~= Seq::<u8>::empty());
        assert(encode_utf8(a) + encode_utf8(b) =~= encode_utf8(b));
    } else {
        lemma_encode_utf8_append(a.drop_first(), b);
        assert((a + b).drop_first() =~= a.drop_first() + b);
        assert((a + b)[0] == a[0]);
        assert(encode_utf8(a + b) =~= encode_scalar(a[0] as u32) + encode_utf8(a.drop_first() + b));
    }
}

pub proof fn lemma_encode_utf8_single(c: char)
    ensures
        encode_utf8(seq![c]) == encode_scalar(c as u32),
{
    let s = seq![c];
    assert(s.drop_first() =~= Seq::<char>::empty());
    assert(encode_utf8(s.drop_first()) =~= Seq::<u8>::empty());
    assert(encode_utf8(s) =~= encode_scalar(s[0] as u32) + encode_utf8(s.drop_first()));
    assert(encode_scalar(c as u32) + Seq::<u8>::empty() =~= encode_scalar(c as u32));
}

fn char_width(c: char) -> (w: u128)
    ensures
        w == encode_scalar(c as u32).len(),
        1 <= w <= 4,
{
    let u = c as u32;
    proof {
        char_is_scalar(c);
    }
    if u <= 0x7f {
        1
    } else if u <= 0x7ff {
        2
    } else if u <= 0xffff {
        3
    } else {
        4
    }
}

/// Byte offsets of every character position in `s`, from 0 to `s.len()`.
pub fn byte_offsets(s: &[char]) -> (r: Vec<u128>)
    ensures
        r@.len() == s@.len() + 1,
        forall|i: int| 0 <= i <= s@.len() ==> r@[i] == byte_offset(s@, i),
{
    let n = s.len();
    let mut r: Vec<u128> = Vec::new();
    let mut acc: u128 = 0;
    r.push(0);
    assert(s@.take(0) =~= Seq::<char>::empty());
    assert(byte_offset(s@, 0) == 0);
    let mut i: usize = 0;
    while i < n
        invariant
            n == s@.len(),
            i <= n,
            r@.len() == i + 1,
            acc == byte_offset(s@, i as int),
            acc <= 4 * i,
            forall|k: int| 0 <= k <= i ==> r@[k] == byte_offset(s@, k),
        decreases n - i,
    {
        let w = char_width(s[i]);
        proof {
            assert(s@.take(i + 1) =~= s@.take(i as int) + seq![s@[i as int]]);
            lemma_encode_utf8_append(s@.take(i as int), seq![s@[i as int]]);
            lemma_encode_utf8_single(s@[i as int]);
        }
        acc = acc + w;
        r.push(acc);
        i = i + 1;
    }
    r
}

/// `c` with an ASCII lower-case letter mapped to upper case.
pub open spec fn ascii_upper_char(c: char) -> char {
    if 'a' <= c <= 'z' {
        ((c as u32) - 32) as char
    } else {
        c
    }
}

/// `s` with every ASCII lower-case letter mapped to upper case
/// (`str::to_ascii_uppercase`).
pub open spec fn ascii_upper(s: Seq<char>) -> Seq<char> {
    s.map_values(|c: char| ascii_upper_char(c))
}

/// Maps every ASCII lower-case letter of `s` to upper case.
pub fn to_ascii_upper(s: &[char]) -> (r: Vec<char>)
    ensures
        r@ == ascii_upper(s@),
{
    let n = s.len();
    let mut r: Vec<char> = Vec::new();
    let mut i: usize = 0;
    while i < n
        invariant
            n == s@.len(),
            i <= n,
            r@ == ascii_upper(s@.take(i as int)),
        decreases n - i,
    {
        let c = s[i];
        let u = if 'a' <= c && c <= 'z' {
            (((c as u32) - 32) as u8) as char
        } else {
            c
        };
        r.push(u);
        assert(ascii_upper(s@.take(i + 1)) =~= ascii_upper(s@.take(i as int)).push(u));
        i = i + 1;
    }
    assert(s@.take(n as int) =~= s@);
    r
}

/// The first `n` characters of `s`, or all of `s` when it is shorter
/// (`s.chars().take(n)`).
pub open spec fn prefix(s: Seq<char>, n: int) -> Seq<char> {
    if n < s.len() {
        s.take(n)
    } else {
        s
    }
}

/// The first `n` characters of `s`.
pub fn take_prefix(s: &[char], n: u128) -> (r: Vec<char>)
    ensures
        r@ == prefix(s@, n as int),
{
    let len = s.len();
    let stop: usize = if n < len as u128 {
        n as usize
    } else {
        len
    };
    let mut r: Vec<char> = Vec::new();
    let mut i: usize = 0;
    while i < stop
        invariant
            len == s@.len(),
            stop <= len,
            i <= stop,
            r@ == s@.take(i as int),
        decreases stop - i,
    {
        r.push(s[i]);
        assert(r@ =~= s@.take(i + 1));
        i = i + 1;
    }
    assert(s@.take(len as int) =~= s@);
    r
}

} // verus!

verus! {

/// Whether two character sequences are equal.
pub fn chars_equal(a: &[char], b: &[char]) -> (r: bool)
    ensures
        r == (a@ == b@),
{
    let n = a.len();
    if n != b.len() {
        return false;
    }
    let mut i: usize = 0;
    while i < n
        invariant
            n == a@.len(),
            n == b@.len(),
            i <= n,
            forall|j: int| 0 <= j < i ==> a@[j] == b@[j],
        decreases n - i,
    {
        if a[i] != b[i] {
            return false;
        }
        i = i + 1;
    }
    assert(a@ =~= b@);
    true
}

} // verus!

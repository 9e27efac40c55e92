use vstd::prelude::*;

verus! {

/// The classes of characters at which a forward scan stops.
#[derive(Clone, Copy, PartialEq, Eq, Structural)]
pub enum Stop {
    /// `)`, the end of a parenthesized number.
    Paren,
    /// `"`, the end of a string.
    Quote,
    /// `]`, the end of a function reference.
    Bracket,
    /// A newline or a backslash, the end of a comment.
    CommentEnd,
    /// Anything that cannot continue a bare number.
    NonNumeric,
    /// `e` or `E`, the start of an exponent.
    ExpMark,
}

pub open spec fn is_digit(c: char) -> bool {
    '0' <= c && c <= '9'
}

pub open spec fn stops(k: Stop, c: char) -> bool {
    match k {
        Stop::Paren => c == ')',
        Stop::Quote => c == '"',
        Stop::Bracket => c == ']',
        Stop::CommentEnd => c == '\n' || c == '\\',
        Stop::NonNumeric => !is_digit(c) && c != '_' && c != '.',
        Stop::ExpMark => c == 'e' || c == 'E',
    }
}

/// The first position at or after `i` whose character stops a scan of kind `k`,
/// or the length of `s` when there is none.
pub open spec fn scan_end(s: Seq<char>, i: int, k: Stop) -> int
    decreases s.len() - i,
{
    if i >= s.len() {
        s.len() as int
    } else if stops(k, s[i]) {
        i
    } else {
        scan_end(s, i + 1, k)
    }
}

pub proof fn lemma_scan_end(s: Seq<char>, i: int, k: Stop)
    requires
        0 <= i <= s.len(),
    ensures
        i <= scan_end(s, i, k) <= s.len(),
        forall|j: int| i <= j < scan_end(s, i, k) ==> !stops(k, #[trigger] s[j]),
        scan_end(s, i, k) < s.len() ==> stops(k, s[scan_end(s, i, k)]),
    decreases s.len() - i,
{
    if i < s.len() && !stops(k, s[i]) {
        lemma_scan_end(s, i + 1, k);
    }
}

/// Where a scan ends, given that the characters from `i` up to `e` do not stop it.
pub proof fn lemma_scan_end_at(s: Seq<char>, i: int, e: int, k: Stop)
    requires
        0 <= i <= e <= s.len(),
        forall|j: int| i <= j < e ==> !stops(k, #[trigger] s[j]),
        e == s.len() || stops(k, s[e]),
    ensures
        scan_end(s, i, k) == e,
    decreases e - i,
{
    if i < e {
        lemma_scan_end_at(s, i + 1, e, k);
    }
}

pub(crate) fn stops_exec(k: Stop, c: char) -> (r: bool)
    ensures
        r == stops(k, c),
{
    match k {
        Stop::Paren => c == ')',
        Stop::Quote => c == '"',
        Stop::Bracket => c == ']',
        Stop::CommentEnd => c == '\n' || c == '\\',
        Stop::NonNumeric => !('0' <= c && c <= '9') && c != '_' && c != '.',
        Stop::ExpMark => c == 'e' || c == 'E',
    }
}

/// The character at position `i`.
pub(crate) fn char_at(chs: &Vec<char>, i: usize) -> (c: char)
    requires
        i < chs.len(),
    ensures
        c == chs@[i as int],
{
    chs[i]
}

/// Scans forward from `from` to the first character that stops a scan of kind `k`.
pub(crate) fn chomp(chs: &Vec<char>, from: usize, k: Stop) -> (r: usize)
    requires
        from <= chs.len(),
    ensures
        r == scan_end(chs@, from as int, k),
{
    let mut c: usize = from;
    while c < chs.len() && !stops_exec(k, chs[c])
        invariant
            from <= c <= chs.len(),
            scan_end(chs@, c as int, k) == scan_end(chs@, from as int, k),
        decreases chs.len() - c,
    {
        c += 1;
    }
    c
}

/// Copies the characters of `chs` from `lo` up to `hi`.
pub(crate) fn copy_range(chs: &Vec<char>, lo: usize, hi: usize) -> (r: Vec<char>)
    requires
        lo <= hi <= chs.len(),
    ensures
        r@ == chs@.subrange(lo as int, hi as int),
{
    let mut out: Vec<char> = Vec::new();
    let mut i: usize = lo;
    while i < hi
        invariant
            lo <= i <= hi <= chs.len(),
            out@ == chs@.subrange(lo as int, i as int),
        decreases hi - i,
    {
        out.push(chs[i]);
        i += 1;
    }
    out
}

/// Relies on `FromIterator<&char>` for `String`, through `Iterator::collect`:
/// the string holds the characters in order.
#[verifier::external_body]
pub(crate) fn string_of(chs: &Vec<char>) -> (r: String)
    ensures
        r@ == chs@,
{
    chs.iter().collect()
}

/// The characters of `s` in order.
pub(crate) fn chars_of(s: &str) -> (r: Vec<char>)
    ensures
        r@ == s@,
{
    let n = s.unicode_len();
    let mut out: Vec<char> = Vec::new();
    let mut i: usize = 0;
    while i < n
        invariant
            n == s@.len(),
            i <= n,
            out@ == s@.take(i as int),
        decreases n - i,
    {
        out.push(s.get_char(i));
        i += 1;
    }
    assert(s@.take(n as int) == s@);
    out
}

} // verus!

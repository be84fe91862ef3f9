//! Character-level text primitives on `Seq<char>`, with executable versions
//! on `Vec<char>`. They follow the meaning of the corresponding `str` methods
//! (`trim`, `lines`, `split_whitespace`, `find`, `parse`, ...), indices being
//! counted in characters.
use vstd::prelude::*;
use vstd::string::StringExecFns;

verus! {

// ---------------------------------------------------------------------------
// Character classes
// ---------------------------------------------------------------------------

/// Unicode `White_Space`, the set that `char::is_whitespace` tests.
pub open spec fn is_ws(c: char) -> bool {
    let u = c as u32;
    ||| 9 <= u <= 13
    ||| u == 32
    ||| u == 0x85
    ||| u == 0xA0
    ||| u == 0x1680
    ||| 0x2000 <= u <= 0x200A
    ||| u == 0x2028
    ||| u == 0x2029
    ||| u == 0x202F
    ||| u == 0x205F
    ||| u == 0x3000
}

/// An ASCII digit.
pub open spec fn is_digit(c: char) -> bool {
    '0' <= c <= '9'
}

/// An ASCII letter or digit.
pub open spec fn is_alnum(c: char) -> bool {
    ||| '0' <= c <= '9'
    ||| 'a' <= c <= 'z'
    ||| 'A' <= c <= 'Z'
}

/// The ASCII lower case of a character; other characters are kept.
pub open spec fn lower_char(c: char) -> char {
    if 'A' <= c <= 'Z' {
        ((c as u32) + 32) as char
    } else {
        c
    }
}

/// The value of an ASCII digit.
pub open spec fn digit_val(c: char) -> nat {
    ((c as u32) - ('0' as u32)) as nat
}

/// Whether `c` is whitespace (`char::is_whitespace`).
pub fn is_whitespace_char(c: char) -> (r: bool)
    ensures
        r == is_ws(c),
{
    let u = c as u32;
    (9 <= u && u <= 13) || u == 32 || u == 0x85 || u == 0xA0 || u == 0x1680 || (0x2000 <= u
        && u <= 0x200A) || u == 0x2028 || u == 0x2029 || u == 0x202F || u == 0x205F || u == 0x3000
}

/// Whether `c` is an ASCII digit.
pub fn is_ascii_digit(c: char) -> (r: bool)
    ensures
        r == is_digit(c),
{
    '0' <= c && c <= '9'
}

/// Whether `c` is an ASCII letter or digit.
pub fn is_ascii_alnum(c: char) -> (r: bool)
    ensures
        r == is_alnum(c),
{
    ('0' <= c && c <= '9') || ('a' <= c && c <= 'z') || ('A' <= c && c <= 'Z')
}

/// The ASCII lower case of `c`.
pub fn ascii_lower(c: char) -> (r: char)
    ensures
        r == lower_char(c),
{
    if 'A' <= c && c <= 'Z' {
        let u = ((c as u32) + 32) as u8;
        u as char
    } else {
        c
    }
}

} // verus!

verus! {

// ---------------------------------------------------------------------------
// Specifications of the string operations
// ---------------------------------------------------------------------------

/// The views of a sequence of character vectors.
pub open spec fn views(v: Seq<Vec<char>>) -> Seq<Seq<char>> {
    v.map_values(|x: Vec<char>| x@)
}

/// An optional index as an integer.
pub open spec fn opt_int(o: Option<usize>) -> Option<int> {
    match o {
        Some(a) => Some(a as int),
        None => None,
    }
}

/// Index of the first non-whitespace character at or after `i`, or `s.len()`.
pub open spec fn skip_ws(s: Seq<char>, i: int) -> int
    decreases s.len() - i,
{
    if 0 <= i < s.len() && is_ws(s[i]) {
        skip_ws(s, i + 1)
    } else {
        i
    }
}

/// End of `s[lo..j]` once its trailing whitespace is removed.
pub open spec fn trim_end_index(s: Seq<char>, lo: int, j: int) -> int
    decreases j - lo,
{
    if lo < j && is_ws(s[j - 1]) {
        trim_end_index(s, lo, j - 1)
    } else {
        j
    }
}

/// `str::trim`: leading and trailing whitespace removed.
pub open spec fn spec_trim(s: Seq<char>) -> Seq<char> {
    let a = skip_ws(s, 0);
    s.subrange(a, trim_end_index(s, a, s.len() as int))
}

/// The whitespace-separated tokens of `s[i..]`; `cur` is the start of the
/// token being read at `i`, if any (`str::split_whitespace`).
pub open spec fn tokens_acc(s: Seq<char>, i: int, cur: Option<int>) -> Seq<Seq<char>>
    decreases s.len() - i,
{
    if i >= s.len() {
        match cur {
            Some(a) => seq![s.subrange(a, s.len() as int)],
            None => seq![],
        }
    } else if is_ws(s[i]) {
        match cur {
            Some(a) => seq![s.subrange(a, i)] + tokens_acc(s, i + 1, None),
            None => tokens_acc(s, i + 1, None),
        }
    } else {
        match cur {
            Some(a) => tokens_acc(s, i + 1, Some(a)),
            None => tokens_acc(s, i + 1, Some(i)),
        }
    }
}

/// `str::split_whitespace`, collected.
pub open spec fn spec_tokens(s: Seq<char>) -> Seq<Seq<char>> {
    tokens_acc(s, 0, None)
}

/// A line without the carriage return that ends it, if any.
pub open spec fn strip_cr(t: Seq<char>) -> Seq<char> {
    if t.len() > 0 && t.last() == '\r' {
        t.drop_last()
    } else {
        t
    }
}

/// The lines of `s[i..]`, the current one starting at `a` (`str::lines`).
pub open spec fn lines_acc(s: Seq<char>, i: int, a: int) -> Seq<Seq<char>>
    decreases s.len() - i,
{
    if i >= s.len() {
        if a < s.len() {
            seq![s.subrange(a, s.len() as int)]
        } else {
            seq![]
        }
    } else if s[i] == '\n' {
        seq![strip_cr(s.subrange(a, i))] + lines_acc(s, i + 1, i + 1)
    } else {
        lines_acc(s, i + 1, a)
    }
}

/// `str::lines`, collected.
pub open spec fn spec_lines(s: Seq<char>) -> Seq<Seq<char>> {
    lines_acc(s, 0, 0)
}

/// The pieces of `s[i..]` between characters that are not ASCII
/// alphanumeric, the current one starting at `a`; empty pieces are kept
/// (`str::split` with such a separator).
pub open spec fn pieces_acc(s: Seq<char>, i: int, a: int) -> Seq<Seq<char>>
    decreases s.len() - i,
{
    if i >= s.len() {
        seq![s.subrange(a, s.len() as int)]
    } else if !is_alnum(s[i]) {
        seq![s.subrange(a, i)] + pieces_acc(s, i + 1, i + 1)
    } else {
        pieces_acc(s, i + 1, a)
    }
}

/// The pieces of `s` between characters that are not ASCII letters or digits (`str::split`).
pub open spec fn spec_alnum_pieces(s: Seq<char>) -> Seq<Seq<char>> {
    pieces_acc(s, 0, 0)
}

/// `pat` occurs in `s` at index `i`.
pub open spec fn spec_matches_at(s: Seq<char>, i: int, pat: Seq<char>) -> bool {
    &&& 0 <= i
    &&& i + pat.len() <= s.len()
    &&& forall|k: int| 0 <= k < pat.len() ==> s[i + k] == pat[k]
}

/// First occurrence of `pat` in `s` at or after `i` (`str::find`).
pub open spec fn find_from(s: Seq<char>, pat: Seq<char>, i: int) -> Option<int>
    decreases s.len() - i,
{
    if i < 0 || i + pat.len() > s.len() {
        None
    } else if spec_matches_at(s, i, pat) {
        Some(i)
    } else {
        find_from(s, pat, i + 1)
    }
}

/// The index of the first occurrence of `pat` in `s` (`str::find`).
pub open spec fn spec_find(s: Seq<char>, pat: Seq<char>) -> Option<int> {
    find_from(s, pat, 0)
}

/// Whether `pat` occurs in `s`.
pub open spec fn spec_contains(s: Seq<char>, pat: Seq<char>) -> bool {
    spec_find(s, pat) is Some
}

/// Whether `s` begins with `pat`.
pub open spec fn spec_starts_with(s: Seq<char>, pat: Seq<char>) -> bool {
    spec_matches_at(s, 0, pat)
}

/// First index at or after `i` holding `c`.
pub open spec fn index_of_from(s: Seq<char>, c: char, i: int) -> Option<int>
    decreases s.len() - i,
{
    if i < 0 || i >= s.len() {
        None
    } else if s[i] == c {
        Some(i)
    } else {
        index_of_from(s, c, i + 1)
    }
}

/// Last index before `j` holding `c` (`str::rfind` on `s[..j]`).
pub open spec fn rindex_before(s: Seq<char>, c: char, j: int) -> Option<int>
    decreases j,
{
    if j <= 0 {
        None
    } else if s[j - 1] == c {
        Some(j - 1)
    } else {
        rindex_before(s, c, j - 1)
    }
}

/// The index of the last occurrence of `c` in `s`.
pub open spec fn spec_rfind_char(s: Seq<char>, c: char) -> Option<int> {
    rindex_before(s, c, s.len() as int)
}

/// `str::split_once` with a character separator.
pub open spec fn spec_split_once(s: Seq<char>, c: char) -> Option<(Seq<char>, Seq<char>)> {
    match index_of_from(s, c, 0) {
        Some(k) => Some((s.take(k), s.skip(k + 1))),
        None => None,
    }
}

/// End of `s[..j]` once every trailing `c` is removed.
pub open spec fn strip_char_end(s: Seq<char>, c: char, j: int) -> int
    decreases j,
{
    if j > 0 && s[j - 1] == c {
        strip_char_end(s, c, j - 1)
    } else {
        j
    }
}

/// `str::trim_end_matches` with a character.
pub open spec fn spec_trim_end_char(s: Seq<char>, c: char) -> Seq<char> {
    s.take(strip_char_end(s, c, s.len() as int))
}

/// End of `s[..j]` once every trailing copy of `pat` is removed.
pub open spec fn strip_pat_end(s: Seq<char>, pat: Seq<char>, j: int) -> int
    decreases j,
{
    if pat.len() > 0 && j >= pat.len() && spec_matches_at(s, j - pat.len(), pat) {
        strip_pat_end(s, pat, j - pat.len())
    } else {
        j
    }
}

/// `str::trim_end_matches` with a string pattern.
pub open spec fn spec_trim_end_pat(s: Seq<char>, pat: Seq<char>) -> Seq<char> {
    s.take(strip_pat_end(s, pat, s.len() as int))
}

/// `str::ends_with` with a string pattern.
pub open spec fn spec_ends_with(s: Seq<char>, pat: Seq<char>) -> bool {
    pat.len() <= s.len() && spec_matches_at(s, s.len() - pat.len(), pat)
}

/// `str::to_ascii_lowercase`.
pub open spec fn spec_lower(s: Seq<char>) -> Seq<char> {
    Seq::new(s.len(), |i: int| lower_char(s[i]))
}

/// Whether every character of `s` is an ASCII digit (true of the empty text).
pub open spec fn spec_all_digits(s: Seq<char>) -> bool {
    forall|i: int| 0 <= i < s.len() ==> is_digit(s[i])
}

/// The number that a string of decimal digits denotes.
pub open spec fn digits_val(s: Seq<char>) -> nat
    decreases s.len(),
{
    if s.len() == 0 {
        0
    } else {
        digits_val(s.drop_last()) * 10 + digit_val(s.last())
    }
}

/// The digits of a number after its sign, as `str::parse` reads them.
pub open spec fn unsigned_body(s: Seq<char>) -> Seq<char> {
    if s.len() > 0 && s[0] == '+' {
        s.drop_first()
    } else {
        s
    }
}

/// `str::parse` for an unsigned integer type whose largest value is `max`.
pub open spec fn spec_parse_unsigned(s: Seq<char>, max: nat) -> Option<nat> {
    if s.len() == 0 || (s.len() == 1 && (s[0] == '+' || s[0] == '-')) {
        None
    } else if spec_all_digits(unsigned_body(s)) && digits_val(unsigned_body(s)) <= max {
        Some(digits_val(unsigned_body(s)))
    } else {
        None
    }
}

/// `str::parse::<i32>`.
pub open spec fn spec_parse_i32(s: Seq<char>) -> Option<int> {
    if s.len() == 0 || (s.len() == 1 && (s[0] == '+' || s[0] == '-')) {
        None
    } else {
        let neg = s[0] == '-';
        let body = if s[0] == '+' || s[0] == '-' {
            s.drop_first()
        } else {
            s
        };
        if !spec_all_digits(body) {
            None
        } else if neg && digits_val(body) <= 0x8000_0000 {
            Some(-digits_val(body))
        } else if !neg && digits_val(body) <= 0x7fff_ffff {
            Some(digits_val(body) as int)
        } else {
            None
        }
    }
}

} // verus!

verus! {

// ---------------------------------------------------------------------------
// Executable string operations
// ---------------------------------------------------------------------------

/// The characters of `s`.
pub fn chars_of(s: &str) -> (r: Vec<char>)
    ensures
        r@ == s@,
{
    let mut r: Vec<char> = Vec::new();
    for c in it: s.chars()
        invariant
            it.seq() == s@,
            r@ == it.seq().take(it.index()),
    {
        proof {
            assert(it.seq().take(it.index() + 1) == it.seq().take(it.index()).push(c));
        }
        r.push(c);
    }
    r
}

/// Copies `s[lo..hi]`.
pub fn slice_chars(s: &Vec<char>, lo: usize, hi: usize) -> (r: Vec<char>)
    requires
        lo <= hi <= s.len(),
    ensures
        r@ == s@.subrange(lo as int, hi as int),
{
    let mut r: Vec<char> = Vec::new();
    let mut i = lo;
    while i < hi
        invariant
            lo <= i <= hi <= s.len(),
            r@ == s@.subrange(lo as int, i as int),
        decreases hi - i,
    {
        r.push(s[i]);
        i += 1;
        assert(r@ =~= s@.subrange(lo as int, i as int));
    }
    r
}

/// `str::trim`.
pub fn trim(s: &Vec<char>) -> (r: Vec<char>)
    ensures
        r@ == spec_trim(s@),
{
    let n = s.len();
    let mut a: usize = 0;
    while a < n
        invariant
            a <= n,
            n == s.len(),
            skip_ws(s@, 0) == skip_ws(s@, a as int),
        ensures
            a <= n,
            skip_ws(s@, 0) == a,
        decreases n - a,
    {
        if !is_whitespace_char(s[a]) {
            break;
        }
        a += 1;
    }
    let mut b: usize = n;
    while b > a
        invariant
            a <= b <= n,
            n == s.len(),
            trim_end_index(s@, a as int, n as int) == trim_end_index(s@, a as int, b as int),
        ensures
            a <= b <= n,
            trim_end_index(s@, a as int, n as int) == b,
        decreases b,
    {
        if !is_whitespace_char(s[b - 1]) {
            break;
        }
        b -= 1;
    }
    slice_chars(s, a, b)
}

/// `str::split_whitespace`, collected.
pub fn tokens(s: &Vec<char>) -> (r: Vec<Vec<char>>)
    ensures
        views(r@) == spec_tokens(s@),
{
    let n = s.len();
    let mut out: Vec<Vec<char>> = Vec::new();
    let mut cur: Option<usize> = None;
    let mut i: usize = 0;
    while i < n
        invariant
            i <= n,
            n == s.len(),
            cur matches Some(a) ==> a < i,
            views(out@) + tokens_acc(s@, i as int, opt_int(cur)) == spec_tokens(s@),
        decreases n - i,
    {
        let ghost before = views(out@);
        if is_whitespace_char(s[i]) {
            if let Some(a) = cur {
                let t = slice_chars(s, a, i);
                out.push(t);
                assert(views(out@) =~= before.push(t@));
                assert(before + tokens_acc(s@, i as int, opt_int(cur)) =~= views(out@) + tokens_acc(
                    s@,
                    i + 1,
                    None,
                ));
            }
            cur = None;
        } else if cur.is_none() {
            cur = Some(i);
        }
        i += 1;
    }
    if let Some(a) = cur {
        let ghost before = views(out@);
        let t = slice_chars(s, a, n);
        out.push(t);
        assert(views(out@) =~= before.push(t@));
        assert(views(out@) =~= before + tokens_acc(s@, n as int, opt_int(cur)));
    } else {
        assert(views(out@) =~= views(out@) + tokens_acc(s@, n as int, opt_int(cur)));
    }
    out
}

/// `str::lines`, collected.
pub fn lines(s: &Vec<char>) -> (r: Vec<Vec<char>>)
    ensures
        views(r@) == spec_lines(s@),
{
    let n = s.len();
    let mut out: Vec<Vec<char>> = Vec::new();
    let mut a: usize = 0;
    let mut i: usize = 0;
    while i < n
        invariant
            a <= i <= n,
            n == s.len(),
            views(out@) + lines_acc(s@, i as int, a as int) == spec_lines(s@),
        decreases n - i,
    {
        if s[i] == '\n' {
            let ghost before = views(out@);
            let mut end = i;
            if end > a && s[end - 1] == '\r' {
                end = end - 1;
            }
            let t = slice_chars(s, a, end);
            assert(t@ =~= strip_cr(s@.subrange(a as int, i as int)));
            out.push(t);
            assert(views(out@) =~= before.push(t@));
            assert(before + lines_acc(s@, i as int, a as int) =~= views(out@) + lines_acc(
                s@,
                i + 1,
                i + 1,
            ));
            a = i + 1;
        }
        i += 1;
    }
    if a < n {
        let ghost before = views(out@);
        let t = slice_chars(s, a, n);
        out.push(t);
        assert(views(out@) =~= before.push(t@));
        assert(views(out@) =~= before + lines_acc(s@, n as int, a as int));
    } else {
        assert(views(out@) =~= views(out@) + lines_acc(s@, n as int, a as int));
    }
    out
}

/// The pieces of `s` between characters that are not ASCII alphanumeric,
/// empty pieces included.
pub fn alnum_pieces(s: &Vec<char>) -> (r: Vec<Vec<char>>)
    ensures
        views(r@) == spec_alnum_pieces(s@),
{
    let n = s.len();
    let mut out: Vec<Vec<char>> = Vec::new();
    let mut a: usize = 0;
    let mut i: usize = 0;
    while i < n
        invariant
            a <= i <= n,
            n == s.len(),
            views(out@) + pieces_acc(s@, i as int, a as int) == spec_alnum_pieces(s@),
        decreases n - i,
    {
        if !is_ascii_alnum(s[i]) {
            let ghost before = views(out@);
            let t = slice_chars(s, a, i);
            out.push(t);
            assert(views(out@) =~= before.push(t@));
            assert(before + pieces_acc(s@, i as int, a as int) =~= views(out@) + pieces_acc(
                s@,
                i + 1,
                i + 1,
            ));
            a = i + 1;
        }
        i += 1;
    }
    let ghost before = views(out@);
    let t = slice_chars(s, a, n);
    out.push(t);
    assert(views(out@) =~= before.push(t@));
    assert(views(out@) =~= before + pieces_acc(s@, n as int, a as int));
    out
}

/// Whether `pat` occurs in `s` at index `i`.
pub fn matches_at(s: &Vec<char>, i: usize, pat: &Vec<char>) -> (r: bool)
    ensures
        r == spec_matches_at(s@, i as int, pat@),
{
    if i > s.len() || pat.len() > s.len() - i {
        return false;
    }
    let mut k: usize = 0;
    while k < pat.len()
        invariant
            i + pat.len() <= s.len(),
            k <= pat.len(),
            forall|j: int| 0 <= j < k ==> s@[i + j] == pat@[j],
        decreases pat.len() - k,
    {
        if s[i + k] != pat[k] {
            return false;
        }
        k += 1;
    }
    true
}

/// `str::find` with a string pattern.
pub fn find(s: &Vec<char>, pat: &Vec<char>) -> (r: Option<usize>)
    ensures
        opt_int(r) == spec_find(s@, pat@),
        r matches Some(k) ==> spec_matches_at(s@, k as int, pat@),
{
    let mut i: usize = 0;
    while i <= s.len()
        invariant
            spec_find(s@, pat@) == find_from(s@, pat@, i as int),
        decreases s.len() + 1 - i,
    {
        if pat.len() > s.len() - i {
            return None;
        }
        if matches_at(s, i, pat) {
            return Some(i);
        }
        i += 1;
    }
    None
}

/// `str::contains` with a string pattern.
pub fn contains(s: &Vec<char>, pat: &Vec<char>) -> (r: bool)
    ensures
        r == spec_contains(s@, pat@),
{
    find(s, pat).is_some()
}

/// `str::starts_with` with a string pattern.
pub fn starts_with(s: &Vec<char>, pat: &Vec<char>) -> (r: bool)
    ensures
        r == spec_starts_with(s@, pat@),
{
    matches_at(s, 0, pat)
}

/// `str::ends_with` with a string pattern.
pub fn ends_with(s: &Vec<char>, pat: &Vec<char>) -> (r: bool)
    ensures
        r == spec_ends_with(s@, pat@),
{
    pat.len() <= s.len() && matches_at(s, s.len() - pat.len(), pat)
}

/// `str::split_once` with a character separator.
pub fn split_once(s: &Vec<char>, c: char) -> (r: Option<(Vec<char>, Vec<char>)>)
    ensures
        match r {
            Some(p) => spec_split_once(s@, c) == Some((p.0@, p.1@)),
            None => spec_split_once(s@, c) is None,
        },
{
    let n = s.len();
    let mut i: usize = 0;
    while i < n
        invariant
            i <= n,
            n == s.len(),
            index_of_from(s@, c, 0) == index_of_from(s@, c, i as int),
        decreases n - i,
    {
        if s[i] == c {
            let head = slice_chars(s, 0, i);
            let tail = slice_chars(s, i + 1, n);
            assert(head@ =~= s@.take(i as int));
            assert(tail@ =~= s@.skip(i + 1));
            return Some((head, tail));
        }
        i += 1;
    }
    None
}

/// `str::rfind` with a character.
pub fn rfind_char(s: &Vec<char>, c: char) -> (r: Option<usize>)
    ensures
        opt_int(r) == spec_rfind_char(s@, c),
        r matches Some(k) ==> k < s.len(),
{
    let mut j: usize = s.len();
    while j > 0
        invariant
            j <= s.len(),
            spec_rfind_char(s@, c) == rindex_before(s@, c, j as int),
        decreases j,
    {
        if s[j - 1] == c {
            return Some(j - 1);
        }
        j -= 1;
    }
    None
}

/// `str::trim_end_matches` with a character.
pub fn trim_end_char(s: &Vec<char>, c: char) -> (r: Vec<char>)
    ensures
        r@ == spec_trim_end_char(s@, c),
{
    let mut j: usize = s.len();
    while j > 0
        invariant
            j <= s.len(),
            strip_char_end(s@, c, s.len() as int) == strip_char_end(s@, c, j as int),
        ensures
            j <= s.len(),
            strip_char_end(s@, c, s.len() as int) == j,
        decreases j,
    {
        if s[j - 1] != c {
            break;
        }
        j -= 1;
    }
    let r = slice_chars(s, 0, j);
    assert(r@ =~= s@.take(j as int));
    r
}

/// `str::trim_end_matches` with a string pattern.
pub fn trim_end_pat(s: &Vec<char>, pat: &Vec<char>) -> (r: Vec<char>)
    ensures
        r@ == spec_trim_end_pat(s@, pat@),
{
    let mut j: usize = s.len();
    if pat.len() > 0 {
        while j >= pat.len()
            invariant
                j <= s.len(),
                pat.len() > 0,
                strip_pat_end(s@, pat@, s.len() as int) == strip_pat_end(s@, pat@, j as int),
            ensures
                j <= s.len(),
                strip_pat_end(s@, pat@, s.len() as int) == j,
            decreases j,
        {
            if !matches_at(s, j - pat.len(), pat) {
                break;
            }
            j -= pat.len();
        }
    }
    let r = slice_chars(s, 0, j);
    assert(r@ =~= s@.take(j as int));
    r
}

/// `str::to_ascii_lowercase`.
pub fn lower(s: &Vec<char>) -> (r: Vec<char>)
    ensures
        r@ == spec_lower(s@),
{
    let mut r: Vec<char> = Vec::new();
    let mut i: usize = 0;
    while i < s.len()
        invariant
            i <= s.len(),
            r@ =~= spec_lower(s@).take(i as int),
        decreases s.len() - i,
    {
        r.push(ascii_lower(s[i]));
        i += 1;
    }
    assert(r@ =~= spec_lower(s@));
    r
}

/// `str::eq_ignore_ascii_case`.
pub fn eq_ignore_ascii_case(a: &Vec<char>, b: &Vec<char>) -> (r: bool)
    ensures
        r == (spec_lower(a@) == spec_lower(b@)),
{
    if a.len() != b.len() {
        assert(spec_lower(a@).len() != spec_lower(b@).len());
        return false;
    }
    let mut i: usize = 0;
    while i < a.len()
        invariant
            a.len() == b.len(),
            i <= a.len(),
            forall|j: int| 0 <= j < i ==> lower_char(a@[j]) == lower_char(b@[j]),
        decreases a.len() - i,
    {
        if ascii_lower(a[i]) != ascii_lower(b[i]) {
            assert(spec_lower(a@)[i as int] != spec_lower(b@)[i as int]);
            return false;
        }
        i += 1;
    }
    assert(spec_lower(a@) =~= spec_lower(b@));
    true
}

/// Whether the two vectors hold the same characters.
pub fn chars_eq(a: &Vec<char>, b: &Vec<char>) -> (r: bool)
    ensures
        r == (a@ == b@),
{
    if a.len() != b.len() {
        return false;
    }
    let mut i: usize = 0;
    while i < a.len()
        invariant
            a.len() == b.len(),
            i <= a.len(),
            forall|j: int| 0 <= j < i ==> a@[j] == b@[j],
        decreases a.len() - i,
    {
        if a[i] != b[i] {
            return false;
        }
        i += 1;
    }
    assert(a@ =~= b@);
    true
}

/// Whether every character of `s` is an ASCII digit.
pub fn all_digits(s: &Vec<char>) -> (r: bool)
    ensures
        r == spec_all_digits(s@),
{
    let mut i: usize = 0;
    while i < s.len()
        invariant
            i <= s.len(),
            forall|j: int| 0 <= j < i ==> is_digit(s@[j]),
        decreases s.len() - i,
    {
        if !is_ascii_digit(s[i]) {
            return false;
        }
        i += 1;
    }
    true
}

} // verus!

verus! {

// ---------------------------------------------------------------------------
// Numbers
// ---------------------------------------------------------------------------

/// Reading one more character multiplies by ten and adds its digit value.
pub proof fn lemma_digits_val_step(s: Seq<char>, lo: int, i: int)
    requires
        0 <= lo <= i < s.len(),
    ensures
        digits_val(s.subrange(lo, i + 1)) == digits_val(s.subrange(lo, i)) * 10 + digit_val(s[i]),
{
    assert(s.subrange(lo, i + 1).drop_last() =~= s.subrange(lo, i));
}

/// A longer prefix of the run reads as at least as much.
pub proof fn lemma_digits_val_mono(s: Seq<char>, lo: int, i: int, j: int)
    requires
        0 <= lo <= i <= j <= s.len(),
    ensures
        digits_val(s.subrange(lo, i)) <= digits_val(s.subrange(lo, j)),
    decreases j - i,
{
    if i < j {
        lemma_digits_val_mono(s, lo, i, j - 1);
        lemma_digits_val_step(s, lo, j - 1);
    }
}

/// Reads `s[start..]` as a decimal number no larger than `max`.
fn bounded_digits(s: &Vec<char>, start: usize, max: u64) -> (r: Option<u64>)
    requires
        start <= s.len(),
    ensures
        match r {
            Some(v) => spec_all_digits(s@.skip(start as int)) && digits_val(s@.skip(start as int))
                == v && v <= max,
            None => !(spec_all_digits(s@.skip(start as int)) && digits_val(s@.skip(start as int))
                <= max),
        },
{
    let n = s.len();
    let ghost body = s@.skip(start as int);
    assert(body =~= s@.subrange(start as int, n as int));
    let mut acc: u64 = 0;
    let mut i: usize = start;
    assert(s@.subrange(start as int, start as int) =~= Seq::<char>::empty());
    while i < n
        invariant
            start <= i <= n,
            n == s.len(),
            body == s@.subrange(start as int, n as int),
            acc as nat == digits_val(s@.subrange(start as int, i as int)),
            acc <= max,
            forall|j: int| start <= j < i ==> is_digit(s@[j]),
        decreases n - i,
    {
        let c = s[i];
        if !is_ascii_digit(c) {
            assert(!is_digit(body[i - start]));
            return None;
        }
        let d = ((c as u32) - ('0' as u32)) as u64;
        proof {
            lemma_digits_val_step(s@, start as int, i as int);
        }
        if d > max || acc > (max - d) / 10 {
            proof {
                assert(acc * 10 + d > max) by (nonlinear_arith)
                    requires
                        d > max || acc > (max - d) / 10,
                        d <= 9,
                ;
                lemma_digits_val_mono(s@, start as int, i + 1, n as int);
            }
            return None;
        }
        proof {
            assert(acc * 10 + d <= max) by (nonlinear_arith)
                requires
                    d <= max,
                    acc <= (max - d) / 10,
            ;
        }
        acc = acc * 10 + d;
        i += 1;
    }
    Some(acc)
}

/// `str::parse` for an unsigned integer type whose largest value is `max`.
pub fn parse_unsigned(s: &Vec<char>, max: u64) -> (r: Option<u64>)
    ensures
        match r {
            Some(v) => spec_parse_unsigned(s@, max as nat) == Some(v as nat),
            None => spec_parse_unsigned(s@, max as nat) is None,
        },
{
    let n = s.len();
    if n == 0 || (n == 1 && (s[0] == '+' || s[0] == '-')) {
        return None;
    }
    let start: usize = if s[0] == '+' {
        1
    } else {
        0
    };
    assert(unsigned_body(s@) =~= s@.skip(start as int));
    bounded_digits(s, start, max)
}

/// `str::parse::<u32>`.
pub fn parse_u32(s: &Vec<char>) -> (r: Option<u32>)
    ensures
        match r {
            Some(v) => spec_parse_unsigned(s@, u32::MAX as nat) == Some(v as nat),
            None => spec_parse_unsigned(s@, u32::MAX as nat) is None,
        },
{
    match parse_unsigned(s, u32::MAX as u64) {
        Some(v) => Some(v as u32),
        None => None,
    }
}

/// `str::parse::<u8>`.
pub fn parse_u8(s: &Vec<char>) -> (r: Option<u8>)
    ensures
        match r {
            Some(v) => spec_parse_unsigned(s@, u8::MAX as nat) == Some(v as nat),
            None => spec_parse_unsigned(s@, u8::MAX as nat) is None,
        },
{
    match parse_unsigned(s, u8::MAX as u64) {
        Some(v) => Some(v as u8),
        None => None,
    }
}

/// `str::parse::<i32>`.
pub fn parse_i32(s: &Vec<char>) -> (r: Option<i32>)
    ensures
        match r {
            Some(v) => spec_parse_i32(s@) == Some(v as int),
            None => spec_parse_i32(s@) is None,
        },
{
    let n = s.len();
    if n == 0 || (n == 1 && (s[0] == '+' || s[0] == '-')) {
        return None;
    }
    let neg = s[0] == '-';
    let start: usize = if s[0] == '+' || s[0] == '-' {
        1
    } else {
        0
    };
    let ghost body = if s@[0] == '+' || s@[0] == '-' {
        s@.drop_first()
    } else {
        s@
    };
    assert(body =~= s@.skip(start as int));
    let limit: u64 = if neg {
        0x8000_0000
    } else {
        0x7fff_ffff
    };
    match bounded_digits(s, start, limit) {
        Some(v) => {
            let w: i64 = if neg {
                0 - (v as i64)
            } else {
                v as i64
            };
            Some(w as i32)
        },
        None => None,
    }
}

/// Decimal notation of a natural number, as `to_string` writes it.
pub open spec fn decimal(n: nat) -> Seq<char>
    decreases n,
{
    if n < 10 {
        seq![(('0' as u32) + n) as char]
    } else {
        decimal(n / 10).push((('0' as u32) + (n % 10)) as char)
    }
}

/// The character of a decimal digit.
fn digit_char(d: u64) -> (c: char)
    requires
        d < 10,
    ensures
        c == (('0' as u32) + d) as char,
{
    let b = (('0' as u32) + (d as u32)) as u8;
    b as char
}

/// `to_string` for an unsigned integer.
pub fn decimal_string(n: u64) -> (r: String)
    ensures
        r@ == decimal(n as nat),
{
    let mut suffix: Vec<char> = Vec::new();
    let mut m = n;
    while m >= 10
        invariant
            decimal(n as nat) == decimal(m as nat) + suffix@,
        decreases m,
    {
        let ghost old_suffix = suffix@;
        let c = digit_char(m % 10);
        suffix.insert(0, c);
        assert(decimal(m as nat) == decimal((m / 10) as nat).push(c));
        assert(decimal((m / 10) as nat) + suffix@ =~= decimal(m as nat) + old_suffix);
        m = m / 10;
    }
    let ghost old_suffix = suffix@;
    suffix.insert(0, digit_char(m));
    assert(suffix@ =~= decimal(m as nat) + old_suffix);
    string_of(&suffix)
}

// ---------------------------------------------------------------------------
// Strings
// ---------------------------------------------------------------------------

/// `String::push` appends one character: this is what its documentation
/// states, and what this specification claims.
pub assume_specification[ String::push ](s: &mut String, ch: char)
    ensures
        final(s)@ == old(s)@.push(ch),
;

/// A `String` holding the given characters.
pub fn string_of(cs: &Vec<char>) -> (r: String)
    ensures
        r@ == cs@,
{
    let mut r = String::new();
    let mut i: usize = 0;
    while i < cs.len()
        invariant
            i <= cs.len(),
            r@ =~= cs@.take(i as int),
        decreases cs.len() - i,
    {
        r.push(cs[i]);
        i += 1;
    }
    assert(cs@.take(cs.len() as int) =~= cs@);
    r
}

} // verus!

verus! {

// ---------------------------------------------------------------------------
// Tokens of a given shape
// ---------------------------------------------------------------------------

/// The shapes of the tokens that the readers of command output look for.
#[derive(Clone, Copy, PartialEq, Eq, Debug)]
pub enum TokenShape {
    /// Only ASCII digits (the empty token included).
    Digits,
    /// Ends with `%`.
    PercentSuffixed,
    /// Only ASCII digits once every trailing `%` is removed.
    DigitsPercent,
    /// Only ASCII digits and dots.
    Decimal,
    /// Ends with `mV`, and only ASCII digits once every trailing `mV` is removed.
    MilliVolts,
    /// Ends with `mA`, and only ASCII digits once every trailing `mA` is removed.
    MilliAmps,
}

/// An ASCII digit or a `.`.
pub open spec fn is_decimal_char(c: char) -> bool {
    is_digit(c) || c == '.'
}

/// Whether a token has the given shape.
pub open spec fn spec_has_shape(t: Seq<char>, shape: TokenShape) -> bool {
    match shape {
        TokenShape::Digits => spec_all_digits(t),
        TokenShape::PercentSuffixed => t.len() > 0 && t.last() == '%',
        TokenShape::DigitsPercent => spec_all_digits(spec_trim_end_char(t, '%')),
        TokenShape::Decimal => forall|i: int| 0 <= i < t.len() ==> is_decimal_char(t[i]),
        TokenShape::MilliVolts => spec_ends_with(t, "mV"@) && spec_all_digits(
            spec_trim_end_pat(t, "mV"@),
        ),
        TokenShape::MilliAmps => spec_ends_with(t, "mA"@) && spec_all_digits(
            spec_trim_end_pat(t, "mA"@),
        ),
    }
}

/// Index of the first of `toks[i..]` that has the given shape
/// (`Iterator::find` over the tokens).
pub open spec fn first_shaped_from(toks: Seq<Seq<char>>, shape: TokenShape, i: int) -> Option<int>
    decreases toks.len() - i,
{
    if i < 0 || i >= toks.len() {
        None
    } else if spec_has_shape(toks[i], shape) {
        Some(i)
    } else {
        first_shaped_from(toks, shape, i + 1)
    }
}

/// The first of `toks` that has the given shape.
pub open spec fn spec_first_shaped(toks: Seq<Seq<char>>, shape: TokenShape) -> Option<Seq<char>> {
    match first_shaped_from(toks, shape, 0) {
        Some(i) => Some(toks[i]),
        None => None,
    }
}

/// The first token of the shape from `i` on, where there is one, is a token at or after `i`.
pub open spec fn first_shaped_bounds(toks: Seq<Seq<char>>, shape: TokenShape, i: int) -> bool {
    first_shaped_from(toks, shape, i) matches Some(k) ==> i <= k < toks.len()
}

/// `first_shaped_from` yields an index of a token of the shape, at or after `i`.
pub proof fn lemma_first_shaped_bounds(toks: Seq<Seq<char>>, shape: TokenShape, i: int)
    requires
        0 <= i,
    ensures
        first_shaped_bounds(toks, shape, i),
    decreases toks.len() - i,
{
    if i < toks.len() && !spec_has_shape(toks[i], shape) {
        lemma_first_shaped_bounds(toks, shape, i + 1);
    }
}

fn all_decimal_chars(t: &Vec<char>) -> (r: bool)
    ensures
        r == (forall|i: int| 0 <= i < t@.len() ==> is_decimal_char(t@[i])),
{
    let mut i: usize = 0;
    while i < t.len()
        invariant
            i <= t.len(),
            forall|j: int| 0 <= j < i ==> is_decimal_char(t@[j]),
        decreases t.len() - i,
    {
        if !(is_ascii_digit(t[i]) || t[i] == '.') {
            assert(!is_decimal_char(t@[i as int]));
            return false;
        }
        i += 1;
    }
    true
}

/// Whether the token `t` has the given shape.
pub fn has_shape(t: &Vec<char>, shape: TokenShape) -> (r: bool)
    ensures
        r == spec_has_shape(t@, shape),
{
    match shape {
        TokenShape::Digits => all_digits(t),
        TokenShape::PercentSuffixed => t.len() > 0 && t[t.len() - 1] == '%',
        TokenShape::DigitsPercent => {
            let u = trim_end_char(t, '%');
            all_digits(&u)
        },
        TokenShape::Decimal => all_decimal_chars(t),
        TokenShape::MilliVolts => {
            let unit = chars_of("mV");
            let u = trim_end_pat(t, &unit);
            ends_with(t, &unit) && all_digits(&u)
        },
        TokenShape::MilliAmps => {
            let unit = chars_of("mA");
            let u = trim_end_pat(t, &unit);
            ends_with(t, &unit) && all_digits(&u)
        },
    }
}

/// The first of `toks` that has the given shape, copied.
pub fn first_shaped(toks: &Vec<Vec<char>>, shape: TokenShape) -> (r: Option<Vec<char>>)
    ensures
        match r {
            Some(t) => spec_first_shaped(views(toks@), shape) == Some(t@) && spec_has_shape(
                t@,
                shape,
            ),
            None => spec_first_shaped(views(toks@), shape) is None,
        },
{
    let ghost vs = views(toks@);
    let mut i: usize = 0;
    while i < toks.len()
        invariant
            i <= toks.len(),
            vs == views(toks@),
            first_shaped_from(vs, shape, 0) == first_shaped_from(vs, shape, i as int),
        decreases toks.len() - i,
    {
        if has_shape(&toks[i], shape) {
            let t = slice_chars(&toks[i], 0, toks[i].len());
            assert(t@ =~= vs[i as int]);
            return Some(t);
        }
        i += 1;
    }
    None
}

// ---------------------------------------------------------------------------
// Decimal numbers read in thousandths
// ---------------------------------------------------------------------------

/// Ten to the power `k`.
pub open spec fn pow10(k: nat) -> nat
    decreases k,
{
    if k == 0 {
        1
    } else {
        10 * pow10((k - 1) as nat)
    }
}

/// The thousandths that the digits after a decimal point denote, the digits
/// beyond the third dropped.
pub open spec fn fraction_millis(fp: Seq<char>) -> nat {
    let f = if fp.len() <= 3 {
        fp
    } else {
        fp.take(3)
    };
    digits_val(f) * pow10((3 - f.len()) as nat)
}

/// `x`, or `u32::MAX` where it is larger.
pub open spec fn cap_u32(x: nat) -> nat {
    if x <= u32::MAX {
        x
    } else {
        u32::MAX as nat
    }
}

/// A token of digits and dots read as a decimal number of units, in
/// thousandths of a unit, truncated toward zero and capped at `u32::MAX`;
/// `None` where it is no number (two dots, or no digit at all).
pub open spec fn spec_decimal_millis(t: Seq<char>) -> Option<nat> {
    match index_of_from(t, '.', 0) {
        None => if t.len() == 0 {
            None
        } else {
            Some(cap_u32(digits_val(t) * 1000))
        },
        Some(k) => {
            let ip = t.take(k);
            let fp = t.skip(k + 1);
            if index_of_from(fp, '.', 0) is Some || (ip.len() == 0 && fp.len() == 0) {
                None
            } else {
                Some(cap_u32(digits_val(ip) * 1000 + fraction_millis(fp)))
            }
        },
    }
}

/// The smaller of two numbers.
pub open spec fn min_nat(a: nat, b: nat) -> nat {
    if a <= b {
        a
    } else {
        b
    }
}

/// `min(digits_val(s[lo..hi]), cap)`.
fn capped_digits(s: &Vec<char>, lo: usize, hi: usize, cap: u64) -> (r: u64)
    requires
        lo <= hi <= s.len(),
        cap <= 0x1_0000_0000_0000,
        forall|j: int| lo <= j < hi ==> is_digit(s@[j]),
    ensures
        r as nat == min_nat(digits_val(s@.subrange(lo as int, hi as int)), cap as nat),
{
    let mut acc: u64 = 0;
    let mut i = lo;
    assert(s@.subrange(lo as int, lo as int) =~= Seq::<char>::empty());
    while i < hi
        invariant
            lo <= i <= hi <= s.len(),
            cap <= 0x1_0000_0000_0000,
            forall|j: int| lo <= j < hi ==> is_digit(s@[j]),
            acc as nat == min_nat(digits_val(s@.subrange(lo as int, i as int)), cap as nat),
        decreases hi - i,
    {
        proof {
            lemma_digits_val_step(s@, lo as int, i as int);
        }
        let c = s[i];
        let d: u64 = ((c as u32) - ('0' as u32)) as u64;
        let ghost v = digits_val(s@.subrange(lo as int, i as int));
        let ghost dv = digit_val(s@[i as int]);
        if acc >= cap {
            proof {
                assert(v * 10 + dv >= cap) by (nonlinear_arith)
                    requires
                        v >= cap,
                ;
            }
            acc = cap;
        } else {
            let next = acc * 10 + d;
            acc = if next >= cap {
                cap
            } else {
                next
            };
        }
        i += 1;
    }
    acc
}

} // verus!

verus! {

/// First index of `c` in `s`.
pub fn index_of(s: &Vec<char>, c: char) -> (r: Option<usize>)
    ensures
        opt_int(r) == index_of_from(s@, c, 0),
        match r {
            Some(k) => k < s.len() && s@[k as int] == c && forall|j: int| 0 <= j < k ==> s@[j] != c,
            None => forall|j: int| 0 <= j < s.len() ==> s@[j] != c,
        },
{
    let mut i: usize = 0;
    while i < s.len()
        invariant
            i <= s.len(),
            index_of_from(s@, c, 0) == index_of_from(s@, c, i as int),
            forall|j: int| 0 <= j < i ==> s@[j] != c,
        decreases s.len() - i,
    {
        if s[i] == c {
            return Some(i);
        }
        i += 1;
    }
    None
}

/// A run of `n` digits reads as less than ten to the `n`.
pub proof fn lemma_digits_val_bound(s: Seq<char>)
    requires
        spec_all_digits(s),
    ensures
        digits_val(s) < pow10(s.len()),
    decreases s.len(),
{
    if s.len() > 0 {
        let p = s.drop_last();
        lemma_digits_val_bound(p);
        let v = digits_val(p);
        let d = digit_val(s.last());
        let q = pow10(p.len());
        assert(d <= 9);
        assert(v * 10 + d < 10 * q) by (nonlinear_arith)
            requires
                v < q,
                d <= 9,
        ;
    }
}

/// A token of digits and dots read as a decimal number of thousandths,
/// truncated and capped at `u32::MAX`.
pub fn decimal_millis(t: &Vec<char>) -> (r: Option<u32>)
    requires
        forall|i: int| 0 <= i < t.len() ==> is_decimal_char(t@[i]),
    ensures
        match r {
            Some(v) => spec_decimal_millis(t@) == Some(v as nat),
            None => spec_decimal_millis(t@) is None,
        },
{
    let n = t.len();
    let cap: u64 = 10_000_000;
    match index_of(t, '.') {
        None => {
            if n == 0 {
                return None;
            }
            let v = capped_digits(t, 0, n, cap);
            assert(t@.subrange(0, n as int) =~= t@);
            let total = v * 1000;
            if total > u32::MAX as u64 {
                Some(u32::MAX)
            } else {
                Some(total as u32)
            }
        },
        Some(k) => {
            let fp = slice_chars(t, k + 1, n);
            assert(fp@ =~= t@.skip(k + 1));
            if index_of(&fp, '.').is_some() || (k == 0 && fp.len() == 0) {
                return None;
            }
            assert(t@.take(k as int) =~= t@.subrange(0, k as int));
            let ip = capped_digits(t, 0, k, cap);
            let m: usize = if fp.len() <= 3 {
                fp.len()
            } else {
                3
            };
            let ghost f = if fp@.len() <= 3 {
                fp@
            } else {
                fp@.take(3)
            };
            assert(f =~= fp@.subrange(0, m as int));
            proof {
                lemma_digits_val_bound(f);
                reveal_with_fuel(pow10, 4);
            }
            let fv = capped_digits(&fp, 0, m, 1000);
            let scale: u64 = if m == 0 {
                1000
            } else if m == 1 {
                100
            } else if m == 2 {
                10
            } else {
                1
            };
            assert(scale == pow10((3 - m) as nat));
            assert(fv * scale <= 1000 * 1000) by (nonlinear_arith)
                requires
                    fv <= 1000,
                    scale <= 1000,
            ;
            let total = ip * 1000 + fv * scale;
            if total > u32::MAX as u64 {
                Some(u32::MAX)
            } else {
                Some(total as u32)
            }
        },
    }
}

} // verus!

verus! {

/// An owned copy of `s`.
pub fn owned(s: &str) -> (r: String)
    ensures
        r@ == s@,
{
    s.to_owned()
}

/// `a` followed by `b`.
pub fn concat(a: &str, b: &str) -> (r: String)
    ensures
        r@ == a@ + b@,
{
    let mut r = a.to_owned();
    r.append(b);
    r
}

} // verus!

verus! {

// ---------------------------------------------------------------------------
// Lines of joined texts
// ---------------------------------------------------------------------------

/// The lines of `s[i..]` that a `\n` ends, the current one starting at `a`.
pub open spec fn closed_lines(s: Seq<char>, i: int, a: int) -> Seq<Seq<char>>
    decreases s.len() - i,
{
    if i >= s.len() {
        seq![]
    } else if s[i] == '\n' {
        seq![strip_cr(s.subrange(a, i))] + closed_lines(s, i + 1, i + 1)
    } else {
        closed_lines(s, i + 1, a)
    }
}

/// Where the last line of `s[i..]`, the one that no `\n` ends, begins (the
/// current line starting at `a`).
pub open spec fn open_line_start(s: Seq<char>, i: int, a: int) -> int
    decreases s.len() - i,
{
    if i >= s.len() {
        a
    } else if s[i] == '\n' {
        open_line_start(s, i + 1, i + 1)
    } else {
        open_line_start(s, i + 1, a)
    }
}

/// The lines of `s[i..]` are the ones a `\n` ends, then the rest where it is
/// not empty.
pub proof fn lemma_lines_split(s: Seq<char>, i: int, a: int)
    requires
        0 <= a <= i <= s.len(),
    ensures
        a <= open_line_start(s, i, a) <= s.len(),
        lines_acc(s, i, a) == closed_lines(s, i, a) + (if open_line_start(s, i, a) < s.len() {
            seq![s.subrange(open_line_start(s, i, a), s.len() as int)]
        } else {
            seq![]
        }),
    decreases s.len() - i,
{
    if i < s.len() {
        if s[i] == '\n' {
            lemma_lines_split(s, i + 1, i + 1);
            let k = open_line_start(s, i + 1, i + 1);
            let tail = if k < s.len() {
                seq![s.subrange(k, s.len() as int)]
            } else {
                seq![]
            };
            assert(seq![strip_cr(s.subrange(a, i))] + (closed_lines(s, i + 1, i + 1) + tail)
                =~= (seq![strip_cr(s.subrange(a, i))] + closed_lines(s, i + 1, i + 1)) + tail);
        } else {
            lemma_lines_split(s, i + 1, a);
        }
    } else {
        assert(closed_lines(s, i, a) + lines_acc(s, i, a) =~= lines_acc(s, i, a));
    }
}

/// Up to the joining `\n`, the lines of `s`, `\n`, `t` are the closed lines
/// of `s` and then its last line without a trailing carriage return.
proof fn lemma_lines_join_head(s: Seq<char>, t: Seq<char>, i: int, a: int)
    requires
        0 <= a <= i <= s.len(),
    ensures
        ({
            let u = s + seq!['\n'] + t;
            lines_acc(u, i, a) == closed_lines(s, i, a) + seq![
                strip_cr(s.subrange(open_line_start(s, i, a), s.len() as int)),
            ] + lines_acc(u, s.len() + 1int, s.len() + 1int)
        }),
    decreases s.len() - i,
{
    let u = s + seq!['\n'] + t;
    if i == s.len() {
        assert(u[i] == '\n');
        assert(u.subrange(a, i) =~= s.subrange(a, i));
        assert(closed_lines(s, i, a) =~= Seq::<Seq<char>>::empty());
        assert(closed_lines(s, i, a) + seq![strip_cr(s.subrange(a, s.len() as int))] =~= seq![
            strip_cr(s.subrange(a, s.len() as int)),
        ]);
    } else {
        assert(u[i] == s[i]);
        if s[i] == '\n' {
            lemma_lines_join_head(s, t, i + 1, i + 1);
            assert(u.subrange(a, i) =~= s.subrange(a, i));
            let x = seq![strip_cr(s.subrange(a, i))];
            let c = closed_lines(s, i + 1, i + 1);
            let y = seq![strip_cr(s.subrange(open_line_start(s, i + 1, i + 1), s.len() as int))];
            let r = lines_acc(u, s.len() + 1int, s.len() + 1int);
            assert(x + (c + y + r) =~= (x + c) + y + r);
        } else {
            lemma_lines_join_head(s, t, i + 1, a);
        }
    }
}

/// After the joining `\n`, the lines of `s`, `\n`, `t` are those of `t`.
proof fn lemma_lines_join_tail(s: Seq<char>, t: Seq<char>, j: int, k: int)
    requires
        0 <= k <= j <= t.len(),
    ensures
        lines_acc(s + seq!['\n'] + t, s.len() + 1 + j, s.len() + 1 + k) == lines_acc(t, j, k),
    decreases t.len() - j,
{
    let u = s + seq!['\n'] + t;
    let off = s.len() + 1;
    if j < t.len() {
        assert(u[off + j] == t[j]);
        assert(u.subrange(off + k, off + j) =~= t.subrange(k, j));
        if t[j] == '\n' {
            lemma_lines_join_tail(s, t, j + 1, j + 1);
        } else {
            lemma_lines_join_tail(s, t, j + 1, k);
        }
    } else {
        assert(u.subrange(off + k, u.len() as int) =~= t.subrange(k, t.len() as int));
    }
}

/// The lines of two texts joined by a `\n`: the lines that a `\n` ends in
/// the first, its last line (without a trailing carriage return, and empty
/// where the first ends with a `\n`), then the lines of the second; the
/// lines of the first alone end with that last line only where it is not
/// empty.
pub proof fn lemma_lines_of_joined(s: Seq<char>, t: Seq<char>)
    ensures
        ({
            let k = open_line_start(s, 0, 0);
            &&& 0 <= k <= s.len()
            &&& spec_lines(s + seq!['\n'] + t) == closed_lines(s, 0, 0) + seq![
                strip_cr(s.subrange(k, s.len() as int)),
            ] + spec_lines(t)
            &&& spec_lines(s) == closed_lines(s, 0, 0) + (if k < s.len() {
                seq![s.subrange(k, s.len() as int)]
            } else {
                seq![]
            })
        }),
{
    lemma_lines_split(s, 0, 0);
    lemma_lines_join_head(s, t, 0, 0);
    lemma_lines_join_tail(s, t, 0, 0);
}

/// A text with no `\n` is one line, or none where it is empty.
pub proof fn lemma_lines_of_single(l: Seq<char>)
    requires
        forall|i: int| 0 <= i < l.len() ==> l[i] != '\n',
    ensures
        spec_lines(l) == (if l.len() > 0 {
            seq![l]
        } else {
            seq![]
        }),
{
    lemma_no_newline_lines(l, 0);
    lemma_lines_split(l, 0, 0);
    assert(l.subrange(0, l.len() as int) =~= l);
    assert(closed_lines(l, 0, 0) + seq![l] =~= seq![l]);
    assert(closed_lines(l, 0, 0) + Seq::<Seq<char>>::empty() =~= Seq::<Seq<char>>::empty());
}

proof fn lemma_no_newline_lines(l: Seq<char>, i: int)
    requires
        0 <= i <= l.len(),
        forall|j: int| 0 <= j < l.len() ==> l[j] != '\n',
    ensures
        closed_lines(l, i, 0) == Seq::<Seq<char>>::empty(),
        open_line_start(l, i, 0) == 0,
    decreases l.len() - i,
{
    if i < l.len() {
        lemma_no_newline_lines(l, i + 1);
    }
}

/// Skipping leading whitespace in a text that ends with a carriage return
/// goes as in the text without it, or to the end where that text is all
/// whitespace from `i` on.
proof fn lemma_skip_ws_cr(x: Seq<char>, i: int)
    requires
        x.len() > 0,
        x.last() == '\r',
        0 <= i <= x.len() - 1,
    ensures
        ({
            let y = x.drop_last();
            &&& skip_ws(y, i) < y.len() ==> skip_ws(x, i) == skip_ws(y, i)
            &&& skip_ws(y, i) >= y.len() ==> skip_ws(x, i) == x.len()
            &&& i <= skip_ws(y, i) <= y.len()
        }),
    decreases x.len() - i,
{
    let y = x.drop_last();
    if i < y.len() {
        assert(x[i] == y[i]);
        if is_ws(y[i]) {
            lemma_skip_ws_cr(x, i + 1);
        }
    } else {
        assert(x[i] == '\r');
        assert(is_ws('\r'));
        assert(skip_ws(x, i + 1) == x.len());
    }
}

/// Removing trailing whitespace from `s[lo..j]` depends on `s[..j]` only.
proof fn lemma_trim_end_prefix(x: Seq<char>, y: Seq<char>, lo: int, j: int)
    requires
        y.len() <= x.len(),
        forall|k: int| 0 <= k < y.len() ==> x[k] == y[k],
        0 <= lo <= j <= y.len(),
    ensures
        trim_end_index(x, lo, j) == trim_end_index(y, lo, j),
        lo <= trim_end_index(y, lo, j) <= j,
    decreases j - lo,
{
    if lo < j {
        assert(x[j - 1] == y[j - 1]);
        lemma_trim_end_prefix(x, y, lo, j - 1);
    }
}

/// A trailing carriage return does not change a trimmed line.
pub proof fn lemma_trim_strip_cr(x: Seq<char>)
    ensures
        spec_trim(strip_cr(x)) == spec_trim(x),
{
    if x.len() > 0 && x.last() == '\r' {
        let y = x.drop_last();
        lemma_skip_ws_cr(x, 0);
        let sy = skip_ws(y, 0);
        if sy < y.len() {
            assert(is_ws(x[x.len() - 1])) by {
                assert(x[x.len() - 1] == '\r');
            }
            assert(trim_end_index(x, sy, x.len() as int) == trim_end_index(x, sy, y.len() as int));
            lemma_trim_end_prefix(x, y, sy, y.len() as int);
            let e = trim_end_index(y, sy, y.len() as int);
            assert(x.subrange(sy, e) =~= y.subrange(sy, e));
        } else {
            assert(trim_end_index(y, sy, y.len() as int) == sy);
            assert(trim_end_index(x, x.len() as int, x.len() as int) == x.len());
            assert(spec_trim(y) =~= Seq::<char>::empty());
            assert(spec_trim(x) =~= Seq::<char>::empty());
        }
    }
}

} // verus!

verus! {

// ---------------------------------------------------------------------------
// Facts about numbers, tokens and searches
// ---------------------------------------------------------------------------

/// The decimal text of `n` is a non-empty run of digits that reads as `n`.
pub proof fn lemma_decimal_value(n: nat)
    ensures
        decimal(n).len() > 0,
        spec_all_digits(decimal(n)),
        digits_val(decimal(n)) == n,
    decreases n,
{
    let c = (('0' as u32) + (n % 10)) as char;
    assert(c as u32 == ('0' as u32) + (n % 10));
    assert(is_digit(c));
    assert(digit_val(c) == n % 10);
    if n >= 10 {
        lemma_decimal_value(n / 10);
        let p = decimal(n / 10);
        let s = p.push(c);
        assert(s.drop_last() =~= p);
        assert(s.last() == c);
        assert(digits_val(s) == digits_val(p) * 10 + digit_val(c));
        assert((n / 10) * 10 + n % 10 == n);
        assert forall|i: int| 0 <= i < s.len() implies is_digit(s[i]) by {
            if i < p.len() {
                assert(s[i] == p[i]);
            }
        }
    } else {
        let s = seq![c];
        assert(s.drop_last() =~= Seq::<char>::empty());
        assert(s.last() == c);
        assert(digits_val(s) == digits_val(s.drop_last()) * 10 + digit_val(c));
        assert(n % 10 == n);
    }
}

/// `str::parse` reads the decimal text of a number back as that number.
pub proof fn lemma_parse_unsigned_decimal(n: nat, max: nat)
    requires
        n <= max,
    ensures
        spec_parse_unsigned(decimal(n), max) == Some(n),
{
    lemma_decimal_value(n);
    let d = decimal(n);
    assert(is_digit(d[0]));
}

/// `str::parse::<i32>` reads the decimal text of a number that fits back as it.
pub proof fn lemma_parse_i32_decimal(n: nat)
    requires
        n <= 0x7fff_ffff,
    ensures
        spec_parse_i32(decimal(n)) == Some(n as int),
{
    lemma_decimal_value(n);
    let d = decimal(n);
    assert(is_digit(d[0]));
}

/// A run of non-whitespace from `a` up to whitespace at `j` (or the end) is
/// one token.
pub proof fn lemma_tokens_run(s: Seq<char>, i: int, a: int, j: int)
    requires
        0 <= a <= i <= j <= s.len(),
        forall|k: int| i <= k < j ==> !is_ws(s[k]),
        j < s.len() ==> is_ws(s[j]),
    ensures
        j < s.len() ==> tokens_acc(s, i, Some(a)) == seq![s.subrange(a, j)] + tokens_acc(
            s,
            j + 1,
            None,
        ),
        j == s.len() ==> tokens_acc(s, i, Some(a)) == seq![s.subrange(a, j)],
    decreases j - i,
{
    if i < j {
        lemma_tokens_run(s, i + 1, a, j);
    }
}

/// A non-empty text without whitespace is one token.
pub proof fn lemma_tokens_single(t: Seq<char>)
    requires
        t.len() > 0,
        forall|k: int| 0 <= k < t.len() ==> !is_ws(t[k]),
    ensures
        spec_tokens(t) == seq![t],
{
    lemma_tokens_run(t, 1, 0, t.len() as int);
    assert(t.subrange(0, t.len() as int) =~= t);
}

/// A non-empty text without whitespace, between two spaces, is one token.
pub proof fn lemma_tokens_padded(t: Seq<char>)
    requires
        t.len() > 0,
        forall|k: int| 0 <= k < t.len() ==> !is_ws(t[k]),
    ensures
        spec_tokens(seq![' '] + t + seq![' ']) == seq![t],
{
    let s = seq![' '] + t + seq![' '];
    let n: int = t.len() as int;
    assert(is_ws(' '));
    assert(s[0] == ' ');
    assert(s[1] == t[0]);
    assert(s[n + 1] == ' ');
    assert(!is_ws(s[1]));
    assert(tokens_acc(s, 0, None) == tokens_acc(s, 1, None));
    assert(tokens_acc(s, 1, None) == tokens_acc(s, 2, Some(1)));
    assert forall|k: int| 2 <= k < n + 1 implies !is_ws(s[k]) by {
        assert(s[k] == t[k - 1]);
    }
    lemma_tokens_run(s, 2, 1, n + 1);
    assert(s.subrange(1, n + 1) =~= t);
    assert(tokens_acc(s, n + 2, None) =~= Seq::<Seq<char>>::empty());
    assert(seq![t] + Seq::<Seq<char>>::empty() =~= seq![t]);
}

/// The first `c` at or after `i` is at `k` where `k` holds `c` and nothing
/// between `i` and `k` does.
pub proof fn lemma_index_of_first(s: Seq<char>, c: char, i: int, k: int)
    requires
        0 <= i <= k < s.len(),
        s[k] == c,
        forall|j: int| i <= j < k ==> s[j] != c,
    ensures
        index_of_from(s, c, i) == Some(k),
    decreases k - i,
{
    if i < k {
        lemma_index_of_first(s, c, i + 1, k);
    }
}

/// No `c` at or after `i`: none is found.
pub proof fn lemma_index_of_none(s: Seq<char>, c: char, i: int)
    requires
        0 <= i,
        forall|j: int| i <= j < s.len() ==> s[j] != c,
    ensures
        index_of_from(s, c, i) is None,
    decreases s.len() - i,
{
    if i < s.len() {
        lemma_index_of_none(s, c, i + 1);
    }
}

/// The first occurrence of `pat` at or after `i` is at `q` where it occurs
/// and nowhere between `i` and `q`.
pub proof fn lemma_find_first(s: Seq<char>, pat: Seq<char>, i: int, q: int)
    requires
        0 <= i <= q,
        spec_matches_at(s, q, pat),
        forall|j: int| i <= j < q ==> !spec_matches_at(s, j, pat),
    ensures
        find_from(s, pat, i) == Some(q),
    decreases q - i,
{
    if i < q {
        lemma_find_first(s, pat, i + 1, q);
    }
}

/// A text that begins and ends with non-whitespace is its own trim.
pub proof fn lemma_trim_plain(s: Seq<char>)
    requires
        s.len() > 0,
        !is_ws(s[0]),
        !is_ws(s.last()),
    ensures
        spec_trim(s) == s,
{
    assert(skip_ws(s, 0) == 0);
    assert(trim_end_index(s, 0, s.len() as int) == s.len());
    assert(s.subrange(0, s.len() as int) =~= s);
}

proof fn lemma_skip_ws_at_most(s: Seq<char>, j: int, i: int)
    requires
        0 <= j <= i < s.len(),
        !is_ws(s[i]),
    ensures
        j <= skip_ws(s, j) <= i,
    decreases i - j,
{
    if j < i && is_ws(s[j]) {
        lemma_skip_ws_at_most(s, j + 1, i);
    }
}

proof fn lemma_trim_end_beyond(s: Seq<char>, lo: int, j: int, i: int)
    requires
        0 <= lo <= i < j <= s.len(),
        !is_ws(s[i]),
    ensures
        trim_end_index(s, lo, j) > i,
    decreases j - lo,
{
    if j - 1 > i && is_ws(s[j - 1]) {
        lemma_trim_end_beyond(s, lo, j - 1, i);
    }
}

/// A text with a non-whitespace character does not trim to nothing.
pub proof fn lemma_trim_nonempty(s: Seq<char>, i: int)
    requires
        0 <= i < s.len(),
        !is_ws(s[i]),
    ensures
        spec_trim(s).len() > 0,
{
    lemma_skip_ws_at_most(s, 0, i);
    let a = skip_ws(s, 0);
    lemma_trim_end_beyond(s, a, s.len() as int, i);
    lemma_trim_end_prefix(s, s, a, s.len() as int);
}

} // verus!

verus! {

/// The last `c` before `j` is at `k` where `k` holds `c` and nothing
/// between `k` and `j` does.
pub proof fn lemma_rindex_last(s: Seq<char>, c: char, k: int, j: int)
    requires
        0 <= k < j <= s.len(),
        s[k] == c,
        forall|i: int| k < i < j ==> s[i] != c,
    ensures
        rindex_before(s, c, j) == Some(k),
    decreases j - k,
{
    if j - 1 > k {
        lemma_rindex_last(s, c, k, j - 1);
    }
}

} // verus!

verus! {

/// Where `pat` occurs nowhere at or after `i`, it is not found.
pub proof fn lemma_find_none(s: Seq<char>, pat: Seq<char>, i: int)
    requires
        0 <= i,
        forall|j: int| i <= j ==> !spec_matches_at(s, j, pat),
    ensures
        find_from(s, pat, i) is None,
    decreases s.len() - i,
{
    if i + pat.len() <= s.len() {
        lemma_find_none(s, pat, i + 1);
    }
}

/// In a text whose only colon is at `c`, a pattern that ends with a colon
/// can only occur where it ends at `c`: where it differs there from the text
/// at its character `w` (or it would start before the text), it is absent.
pub proof fn lemma_colon_pattern_absent(s: Seq<char>, pat: Seq<char>, c: int, w: int)
    requires
        0 <= c < s.len(),
        s[c] == ':',
        forall|i: int| 0 <= i < s.len() && i != c ==> s[i] != ':',
        pat.len() > 0,
        pat[pat.len() - 1] == ':',
        c + 1 < pat.len() || (0 <= w < pat.len() && s[c + 1 - pat.len() + w] != pat[w]),
    ensures
        forall|j: int| !spec_matches_at(s, j, pat),
        find_from(s, pat, 0) is None,
{
    assert forall|j: int| !spec_matches_at(s, j, pat) by {
        if spec_matches_at(s, j, pat) {
            let k = pat.len() - 1;
            assert(s[j + k] == pat[k]);
            if 0 <= w < pat.len() {
                assert(s[j + w] == pat[w]);
            }
        }
    }
    lemma_find_none(s, pat, 0);
}

/// A space, then a non-empty text without whitespace, is one token.
pub proof fn lemma_tokens_after_space(t: Seq<char>)
    requires
        t.len() > 0,
        forall|k: int| 0 <= k < t.len() ==> !is_ws(t[k]),
    ensures
        spec_tokens(seq![' '] + t) == seq![t],
{
    let s = seq![' '] + t;
    let n: int = t.len() as int;
    assert(is_ws(' '));
    assert(s[0] == ' ');
    assert(!is_ws(s[1]));
    assert(tokens_acc(s, 0, None) == tokens_acc(s, 1, None));
    assert(tokens_acc(s, 1, None) == tokens_acc(s, 2, Some(1)));
    assert forall|k: int| 2 <= k < n + 1 implies !is_ws(s[k]) by {
        assert(s[k] == t[k - 1]);
    }
    lemma_tokens_run(s, 2, 1, n + 1);
    assert(s.subrange(1, n + 1) =~= t);
}

/// A space, a token, a space and another token are two tokens.
pub proof fn lemma_tokens_two(t: Seq<char>, u: Seq<char>)
    requires
        t.len() > 0,
        u.len() > 0,
        forall|k: int| 0 <= k < t.len() ==> !is_ws(t[k]),
        forall|k: int| 0 <= k < u.len() ==> !is_ws(u[k]),
    ensures
        spec_tokens(seq![' '] + t + seq![' '] + u) == seq![t, u],
{
    let s = seq![' '] + t + seq![' '] + u;
    let n: int = t.len() as int;
    let m: int = u.len() as int;
    assert(is_ws(' '));
    assert(s[0] == ' ');
    assert(!is_ws(s[1]));
    assert(tokens_acc(s, 0, None) == tokens_acc(s, 1, None));
    assert(tokens_acc(s, 1, None) == tokens_acc(s, 2, Some(1)));
    assert forall|k: int| 2 <= k < n + 1 implies !is_ws(s[k]) by {
        assert(s[k] == t[k - 1]);
    }
    assert(s[n + 1] == ' ');
    lemma_tokens_run(s, 2, 1, n + 1);
    assert(s.subrange(1, n + 1) =~= t);
    assert(s[n + 2] == u[0]);
    assert(!is_ws(s[n + 2]));
    assert(tokens_acc(s, n + 2, None) == tokens_acc(s, n + 3, Some(n + 2)));
    assert forall|k: int| n + 3 <= k < s.len() implies !is_ws(s[k]) by {
        assert(s[k] == u[k - n - 2]);
    }
    lemma_tokens_run(s, n + 3, n + 2, s.len() as int);
    assert(s.subrange(n + 2, s.len() as int) =~= u);
    assert(seq![t] + seq![u] =~= seq![t, u]);
}

} // verus!

verus! {

/// `str::parse::<i32>` reads a minus sign and the decimal text of a number
/// down to `i32::MIN` as the negative of that number.
pub proof fn lemma_parse_i32_negative_decimal(n: nat)
    requires
        n <= 0x8000_0000,
    ensures
        spec_parse_i32(seq!['-'] + decimal(n)) == Some(-(n as int)),
{
    lemma_decimal_value(n);
    let s = seq!['-'] + decimal(n);
    assert(s.drop_first() =~= decimal(n));
    assert(s[0] == '-');
}

/// No `c` before `j`: none is found looking back from `j`.
pub proof fn lemma_rindex_none(s: Seq<char>, c: char, j: int)
    requires
        j <= s.len(),
        forall|i: int| 0 <= i < j ==> s[i] != c,
    ensures
        rindex_before(s, c, j) is None,
    decreases j,
{
    if j > 0 {
        lemma_rindex_none(s, c, j - 1);
    }
}

} // verus!

verus! {

/// The decimal text of a number has no leading zero: it is `0` for zero,
/// and starts with a non-zero digit otherwise.
pub proof fn law_decimal_canonical(n: nat)
    ensures
        n == 0 ==> decimal(n) == seq!['0'],
        n > 0 ==> decimal(n)[0] != '0',
        n > 0 ==> is_digit(decimal(n)[0]),
    decreases n,
{
    if n >= 10 {
        law_decimal_canonical(n / 10);
        let p = decimal(n / 10);
        lemma_decimal_value(n / 10);
        assert(decimal(n)[0] == p[0]);
    } else {
        let c = (('0' as u32) + n) as char;
        assert(c as u32 == ('0' as u32) + n);
        assert(decimal(n)[0] == c);
        if n == 0 {
            assert(decimal(n) =~= seq!['0']);
        }
    }
}

} // verus!

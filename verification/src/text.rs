//! Text primitives: trimming, affixes, lines, comparison and number rendering.
//!
//! All of them are specified over the characters of a string.

use vstd::prelude::*;
use vstd::string::*;

verus! {

/// The characters with the Unicode property `White_Space`.
pub open spec fn is_whitespace(c: char) -> bool {
    let u = c as u32;
    ||| 0x09 <= u <= 0x0D
    ||| u == 0x20
    ||| u == 0x85
    ||| u == 0xA0
    ||| u == 0x1680
    ||| 0x2000 <= u <= 0x200A
    ||| u == 0x2028
    ||| u == 0x2029
    ||| u == 0x202F
    ||| u == 0x205F
    ||| u == 0x3000
}

/// Whether `c` has the Unicode property `White_Space`.
pub fn char_is_whitespace(c: char) -> (r: bool)
    ensures
        r == is_whitespace(c),
{
    let u: u32 = c as u32;
    (0x09 <= u && u <= 0x0D) || u == 0x20 || u == 0x85 || u == 0xA0 || u == 0x1680 || (0x2000 <= u
        && u <= 0x200A) || u == 0x2028 || u == 0x2029 || u == 0x202F || u == 0x205F || u == 0x3000
}

/// `s` without its leading whitespace.
pub open spec fn trim_start(s: Seq<char>) -> Seq<char>
    decreases s.len(),
{
    if s.len() > 0 && is_whitespace(s.first()) {
        trim_start(s.drop_first())
    } else {
        s
    }
}

/// `s` without its trailing whitespace.
pub open spec fn trim_end(s: Seq<char>) -> Seq<char>
    decreases s.len(),
{
    if s.len() > 0 && is_whitespace(s.last()) {
        trim_end(s.drop_last())
    } else {
        s
    }
}

/// `s` without its leading and trailing whitespace.
pub open spec fn trim(s: Seq<char>) -> Seq<char> {
    trim_end(trim_start(s))
}

/// `s` without the run of `c` that it starts with.
pub open spec fn trim_start_char(s: Seq<char>, c: char) -> Seq<char>
    decreases s.len(),
{
    if s.len() > 0 && s.first() == c {
        trim_start_char(s.drop_first(), c)
    } else {
        s
    }
}

/// `s` without the run of `c` that it ends with.
pub open spec fn trim_end_char(s: Seq<char>, c: char) -> Seq<char>
    decreases s.len(),
{
    if s.len() > 0 && s.last() == c {
        trim_end_char(s.drop_last(), c)
    } else {
        s
    }
}

/// Whether `s` starts with `p`.
pub open spec fn has_prefix(s: Seq<char>, p: Seq<char>) -> bool {
    p.len() <= s.len() && s.take(p.len() as int) == p
}

/// Whether `s` ends with `p`.
pub open spec fn has_suffix(s: Seq<char>, p: Seq<char>) -> bool {
    p.len() <= s.len() && s.skip(s.len() - p.len()) == p
}

/// The characters of `s`, in order.
pub fn chars_of(s: &str) -> (v: Vec<char>)
    ensures
        v@ == s@,
{
    let mut v: Vec<char> = Vec::new();
    for c in it: s.chars()
        invariant
            it.seq() == s@,
            v@ == s@.take(it.index()),
    {
        assert(s@.take(it.index() + 1) == s@.take(it.index()).push(c));
        v.push(c);
    }
    assert(s@.take(s@.len() as int) == s@);
    v
}

/// Drops leading whitespace.
pub fn str_trim_start(s: &str) -> (r: &str)
    ensures
        r@ == trim_start(s@),
{
    let v = chars_of(s);
    let n: usize = v.len();
    let mut i: usize = 0;
    assert(s@.skip(0) == s@);
    while i < n && char_is_whitespace(v[i])
        invariant
            i <= n,
            n == v@.len(),
            v@ == s@,
            trim_start(s@.skip(i as int)) == trim_start(s@),
        decreases n - i,
    {
        assert(s@.skip(i as int).drop_first() == s@.skip(i + 1));
        i = i + 1;
    }
    assert(s@.skip(i as int) == s@.subrange(i as int, n as int));
    s.substring_char(i, n)
}

/// Drops trailing whitespace.
pub fn str_trim_end(s: &str) -> (r: &str)
    ensures
        r@ == trim_end(s@),
{
    let v = chars_of(s);
    let mut n: usize = v.len();
    assert(s@.take(n as int) == s@);
    while n > 0 && char_is_whitespace(v[n - 1])
        invariant
            n <= v@.len(),
            v@ == s@,
            trim_end(s@.take(n as int)) == trim_end(s@),
        decreases n,
    {
        assert(s@.take(n as int).drop_last() == s@.take(n - 1));
        n = n - 1;
    }
    assert(s@.take(n as int) == s@.subrange(0, n as int));
    s.substring_char(0, n)
}

/// Drops leading and trailing whitespace.
pub fn str_trim(s: &str) -> (r: &str)
    ensures
        r@ == trim(s@),
{
    str_trim_end(str_trim_start(s))
}

/// Drops the run of `c` at the start.
pub fn str_trim_start_char(s: &str, c: char) -> (r: &str)
    ensures
        r@ == trim_start_char(s@, c),
{
    let v = chars_of(s);
    let n: usize = v.len();
    let mut i: usize = 0;
    assert(s@.skip(0) == s@);
    while i < n && v[i] == c
        invariant
            i <= n,
            n == v@.len(),
            v@ == s@,
            trim_start_char(s@.skip(i as int), c) == trim_start_char(s@, c),
        decreases n - i,
    {
        assert(s@.skip(i as int).drop_first() == s@.skip(i + 1));
        i = i + 1;
    }
    assert(s@.skip(i as int) == s@.subrange(i as int, n as int));
    s.substring_char(i, n)
}

/// Drops the run of `c` at the end.
pub fn str_trim_end_char(s: &str, c: char) -> (r: &str)
    ensures
        r@ == trim_end_char(s@, c),
{
    let v = chars_of(s);
    let mut n: usize = v.len();
    assert(s@.take(n as int) == s@);
    while n > 0 && v[n - 1] == c
        invariant
            n <= v@.len(),
            v@ == s@,
            trim_end_char(s@.take(n as int), c) == trim_end_char(s@, c),
        decreases n,
    {
        assert(s@.take(n as int).drop_last() == s@.take(n - 1));
        n = n - 1;
    }
    assert(s@.take(n as int) == s@.subrange(0, n as int));
    s.substring_char(0, n)
}

/// Whether `needle` stands in `hay` at position `at`.
pub open spec fn occurs_at<T>(hay: Seq<T>, needle: Seq<T>, at: int) -> bool {
    &&& 0 <= at
    &&& at + needle.len() <= hay.len()
    &&& hay.subrange(at, at + needle.len()) == needle
}

/// Whether `needle` stands anywhere in `hay`.
pub open spec fn contains<T>(hay: Seq<T>, needle: Seq<T>) -> bool {
    exists|at: int| occurs_at(hay, needle, at)
}

/// Tests for `needle` at position `at` of `hay`.
fn chars_occur_at(hay: &Vec<char>, needle: &Vec<char>, at: usize) -> (r: bool)
    ensures
        r == occurs_at(hay@, needle@, at as int),
{
    let n: usize = needle.len();
    let h: usize = hay.len();
    if at > h || h - at < n {
        return false;
    }
    let mut i: usize = 0;
    while i < n
        invariant
            i <= n,
            n == needle@.len(),
            h == hay@.len(),
            at + n <= h,
            forall|j: int| 0 <= j < i ==> hay@[at + j] == needle@[j],
        decreases n - i,
    {
        if hay[at + i] != needle[i] {
            assert(hay@.subrange(at as int, at + n)[i as int] != needle@[i as int]);
            return false;
        }
        i = i + 1;
    }
    assert(hay@.subrange(at as int, at + n) == needle@);
    true
}

/// Whether two strings have the same characters.
pub fn str_eq(a: &str, b: &str) -> (r: bool)
    ensures
        r == (a@ == b@),
{
    let x = chars_of(a);
    let y = chars_of(b);
    if x.len() != y.len() {
        return false;
    }
    proof {
        assert(a@.subrange(0, b@.len() as int) == a@);
    }
    chars_occur_at(&x, &y, 0)
}

/// Whether `s` starts with `p`.
pub fn str_starts_with(s: &str, p: &str) -> (r: bool)
    ensures
        r == has_prefix(s@, p@),
{
    proof {
        if p@.len() <= s@.len() {
            assert(s@.subrange(0, p@.len() as int) == s@.take(p@.len() as int));
        }
    }
    chars_occur_at(&chars_of(s), &chars_of(p), 0)
}

/// The rest of `s` behind the prefix `p`, where `s` starts with it.
pub fn str_strip_prefix<'a>(s: &'a str, p: &str) -> (r: Option<&'a str>)
    ensures
        r is Some <==> has_prefix(s@, p@),
        r matches Some(t) ==> t@ == s@.skip(p@.len() as int),
{
    if str_starts_with(s, p) {
        let n: usize = p.unicode_len();
        let m: usize = s.unicode_len();
        proof {
            assert(s@.subrange(n as int, m as int) == s@.skip(n as int));
        }
        Some(s.substring_char(n, m))
    } else {
        None
    }
}

/// The rest of `s` before the suffix `p`, where `s` ends with it.
pub fn str_strip_suffix<'a>(s: &'a str, p: &str) -> (r: Option<&'a str>)
    ensures
        r is Some <==> has_suffix(s@, p@),
        r matches Some(t) ==> t@ == s@.take(s@.len() - p@.len()),
{
    let x = chars_of(s);
    let y = chars_of(p);
    if x.len() < y.len() {
        return None;
    }
    let at: usize = x.len() - y.len();
    proof {
        assert(s@.subrange(at as int, at + p@.len()) == s@.skip(at as int));
    }
    if chars_occur_at(&x, &y, at) {
        proof {
            assert(s@.subrange(0, at as int) == s@.take(at as int));
        }
        Some(s.substring_char(0, at))
    } else {
        None
    }
}

/// Whether `needle` stands anywhere in `hay`.
pub fn str_contains(hay: &str, needle: &str) -> (r: bool)
    ensures
        r == contains(hay@, needle@),
{
    let x = chars_of(hay);
    let y = chars_of(needle);
    let n: usize = x.len();
    let mut at: usize = 0;
    while at < n
        invariant
            at <= n,
            n == x@.len(),
            x@ == hay@,
            y@ == needle@,
            forall|k: int| 0 <= k < at ==> !occurs_at(hay@, needle@, k),
        decreases n - at,
    {
        if chars_occur_at(&x, &y, at) {
            return true;
        }
        at = at + 1;
    }
    chars_occur_at(&x, &y, n)
}

/// How often `c` stands in `s`.
pub open spec fn count_char(s: Seq<char>, c: char) -> nat
    decreases s.len(),
{
    if s.len() == 0 {
        0
    } else {
        count_char(s.drop_last(), c) + if s.last() == c {
            1nat
        } else {
            0nat
        }
    }
}

/// Counts `c` in `s`.
pub fn str_count_char(s: &str, c: char) -> (n: usize)
    ensures
        n == count_char(s@, c),
{
    let v = chars_of(s);
    let len: usize = v.len();
    let mut n: usize = 0;
    let mut i: usize = 0;
    while i < len
        invariant
            n <= i <= len,
            len == v@.len(),
            v@ == s@,
            n == count_char(s@.take(i as int), c),
        decreases len - i,
    {
        assert(s@.take(i + 1).drop_last() == s@.take(i as int));
        if v[i] == c {
            n = n + 1;
        }
        i = i + 1;
    }
    assert(s@.take(len as int) == s@);
    n
}

/// `s` cut at every line feed; a carriage return before one stays.
pub open spec fn split_lines(s: Seq<char>) -> Seq<Seq<char>>
    decreases s.len(),
{
    if s.len() == 0 {
        seq![Seq::<char>::empty()]
    } else {
        let before = split_lines(s.drop_last());
        if s.last() == '\n' {
            before.push(Seq::<char>::empty())
        } else {
            before.drop_last().push(before.last().push(s.last()))
        }
    }
}

/// The lines of `s`, trimmed, without those that hold only whitespace.
pub open spec fn nonblank_lines(s: Seq<char>) -> Seq<Seq<char>> {
    split_lines(s).map_values(|l: Seq<char>| trim(l)).filter(|l: Seq<char>| l.len() > 0)
}

/// The characters of each string of a list.
pub open spec fn views(v: Seq<String>) -> Seq<Seq<char>> {
    v.map_values(|s: String| s@)
}

/// Pushing a string pushes its characters.
pub proof fn lemma_views_push(v: Seq<String>, s: String)
    ensures
        views(v.push(s)) == views(v).push(s@),
{
    assert(views(v.push(s)) =~= views(v).push(s@));
}

/// Cuts `s` into its non-blank lines.
pub fn str_nonblank_lines(s: &str) -> (r: Vec<String>)
    ensures
        views(r@) == nonblank_lines(s@),
{
    let v = chars_of(s);
    let n: usize = v.len();
    let mut r: Vec<String> = Vec::new();
    let mut start: usize = 0;
    let mut i: usize = 0;
    let ghost keep = |l: Seq<char>| l.len() > 0;
    let ghost cut = |l: Seq<char>| trim(l);
    assert(views(r@) =~= Seq::<Seq<char>>::empty().map_values(cut).filter(keep)) by {
        assert(Seq::<Seq<char>>::empty().map_values(cut) =~= Seq::<Seq<char>>::empty());
        reveal(Seq::filter);
    }
    assert(split_lines(s@.take(0)).drop_last() =~= Seq::<Seq<char>>::empty());
    while i < n
        invariant
            start <= i <= n,
            n == v@.len(),
            v@ == s@,
            keep == (|l: Seq<char>| l.len() > 0),
            cut == (|l: Seq<char>| trim(l)),
            split_lines(s@.take(i as int)).len() > 0,
            split_lines(s@.take(i as int)).last() == s@.subrange(start as int, i as int),
            views(r@) == split_lines(s@.take(i as int)).drop_last().map_values(cut).filter(keep),
        decreases n - i,
    {
        let ghost before = split_lines(s@.take(i as int));
        assert(s@.take(i + 1).drop_last() == s@.take(i as int));
        if v[i] == '\n' {
            let line = str_trim(s.substring_char(start, i));
            proof {
                assert(split_lines(s@.take(i + 1)).drop_last() =~= before);
                assert(before =~= before.drop_last().push(before.last()));
                assert(before.map_values(cut) =~= before.drop_last().map_values(cut).push(line@));
                before.drop_last().map_values(cut).lemma_filter_push(line@, keep);
            }
            let ghost done = r@;
            if !line.is_empty() {
                r.push(line.to_string());
                proof {
                    lemma_views_push(done, r@.last());
                }
            }
            start = i + 1;
            assert(s@.subrange(start as int, i + 1) =~= Seq::<char>::empty());
        } else {
            assert(split_lines(s@.take(i + 1)).drop_last() =~= before.drop_last());
            assert(s@.subrange(start as int, i + 1) =~= s@.subrange(start as int, i as int).push(
                s@[i as int],
            ));
        }
        i = i + 1;
    }
    let ghost all = split_lines(s@);
    assert(s@.take(n as int) == s@);
    let line = str_trim(s.substring_char(start, n));
    proof {
        assert(all =~= all.drop_last().push(all.last()));
        assert(all.map_values(cut) =~= all.drop_last().map_values(cut).push(line@));
        all.drop_last().map_values(cut).lemma_filter_push(line@, keep);
    }
    let ghost done = r@;
    if !line.is_empty() {
        r.push(line.to_string());
        proof {
            lemma_views_push(done, r@.last());
        }
    }
    r
}

/// The digit for `d`, from `0` to `9` and then from `a`.
pub open spec fn digit_char(d: nat) -> char {
    if d < 10 {
        (48 + d) as char
    } else {
        (87 + d) as char
    }
}

/// `n` in decimal digits.
pub open spec fn decimal(n: nat) -> Seq<char>
    decreases n,
{
    if n < 10 {
        seq![digit_char(n)]
    } else {
        decimal(n / 10).push(digit_char(n % 10))
    }
}

/// `n` in lower-case hexadecimal digits.
pub open spec fn lower_hex(n: nat) -> Seq<char>
    decreases n,
{
    if n < 16 {
        seq![digit_char(n)]
    } else {
        lower_hex(n / 16).push(digit_char(n % 16))
    }
}

/// Appends one digit.
fn append_digit(s: &mut String, d: u8)
    requires
        d < 16,
    ensures
        final(s)@ == old(s)@.push(digit_char(d as nat)),
{
    let digits = "0123456789abcdef";
    proof {
        reveal_strlit("0123456789abcdef");
    }
    s.append(digits.substring_char(d as usize, d as usize + 1));
    assert(s@ =~= old(s)@.push(digit_char(d as nat)));
}

/// Writes `n` in decimal.
pub fn to_decimal(n: u128) -> (s: String)
    ensures
        s@ == decimal(n as nat),
    decreases n,
{
    let mut s: String = if n < 10 {
        String::new()
    } else {
        to_decimal(n / 10)
    };
    append_digit(&mut s, (n % 10) as u8);
    assert(s@ =~= decimal(n as nat));
    s
}

/// Writes `n` in lower-case hexadecimal.
pub fn to_lower_hex(n: u128) -> (s: String)
    ensures
        s@ == lower_hex(n as nat),
    decreases n,
{
    let mut s: String = if n < 16 {
        String::new()
    } else {
        to_lower_hex(n / 16)
    };
    append_digit(&mut s, (n % 16) as u8);
    assert(s@ =~= lower_hex(n as nat));
    s
}

/// An upper-case ASCII letter in lower case; any other character as it is.
pub open spec fn ascii_lower(c: char) -> char {
    if 'A' <= c <= 'Z' {
        (c as u32 + 32) as char
    } else {
        c
    }
}

/// `s` with its ASCII letters in lower case.
pub open spec fn lowered(s: Seq<char>) -> Seq<char> {
    s.map_values(|c: char| ascii_lower(c))
}

/// Puts the letters of an ASCII string into lower case.
pub fn str_lowered(s: &str) -> (r: String)
    requires
        s.is_ascii(),
    ensures
        r@ == lowered(s@),
        r.is_ascii(),
{
    let v = chars_of(s);
    let n: usize = v.len();
    let letters = "abcdefghijklmnopqrstuvwxyz";
    proof {
        reveal_strlit("abcdefghijklmnopqrstuvwxyz");
    }
    let mut r: String = String::new();
    let mut i: usize = 0;
    while i < n
        invariant
            i <= n,
            n == v@.len(),
            v@ == s@,
            s.is_ascii(),
            letters@ == "abcdefghijklmnopqrstuvwxyz"@,
            r@ == lowered(s@.take(i as int)),
        decreases n - i,
    {
        proof {
            reveal_strlit("abcdefghijklmnopqrstuvwxyz");
            assert(letters.is_ascii());
        }
        let c = v[i];
        if 'A' <= c && c <= 'Z' {
            let k: usize = (c as u32 - 65) as usize;
            r.append(letters.substring_ascii(k, k + 1));
        } else {
            r.append(s.substring_ascii(i, i + 1));
        }
        assert(r@ =~= lowered(s@.take(i + 1)));
        i = i + 1;
    }
    assert(s@.take(n as int) =~= s@);
    r
}

/// The lower-case form of a string by the Unicode rules.
pub uninterp spec fn unicode_lowercase(s: Seq<char>) -> Seq<char>;

/// `str::to_lowercase`: the lower-case form of a string by the Unicode rules,
/// which is a function of its characters alone. Nothing else is claimed of it.
#[verifier::external_body]
pub(crate) fn str_to_lowercase(s: &str) -> (r: String)
    ensures
        r@ == unicode_lowercase(s@),
{
    s.to_lowercase()
}

/// Joins two strings.
pub fn concat2(a: &str, b: &str) -> (s: String)
    ensures
        s@ == a@ + b@,
{
    let mut s = a.to_string();
    s.append(b);
    s
}

/// Joins three strings.
pub fn concat3(a: &str, b: &str, c: &str) -> (s: String)
    ensures
        s@ == a@ + b@ + c@,
{
    let mut s = concat2(a, b);
    s.append(c);
    s
}

/// Whitespace at either end only shortens a string.
pub proof fn lemma_trim_shortens(s: Seq<char>)
    ensures
        trim_start(s).len() <= s.len(),
        trim_end(s).len() <= s.len(),
    decreases s.len(),
{
    if s.len() > 0 {
        lemma_trim_shortens(s.drop_first());
        lemma_trim_shortens(s.drop_last());
    }
}

/// A string that trimming leaves as it is starts and ends with something else
/// than whitespace.
pub proof fn lemma_trimmed_ends(s: Seq<char>)
    requires
        s.len() > 0,
        trim(s) == s,
    ensures
        !is_whitespace(s.first()),
        !is_whitespace(s.last()),
{
    lemma_trim_shortens(trim_start(s));
    if is_whitespace(s.first()) {
        lemma_trim_shortens(s.drop_first());
    }
    if is_whitespace(s.last()) {
        lemma_trim_shortens(s.drop_last());
    }
}

/// A part of a part is a part.
pub proof fn lemma_contains_transitive(a: Seq<char>, b: Seq<char>, c: Seq<char>)
    requires
        contains(a, b),
        contains(b, c),
    ensures
        contains(a, c),
{
    let i = choose|i: int| occurs_at(a, b, i);
    let j = choose|j: int| occurs_at(b, c, j);
    assert(a.subrange(i + j, i + j + c.len()) =~= b.subrange(j, j + c.len()));
    assert(occurs_at(a, c, i + j));
}

/// Every range of a string is a part of it.
pub proof fn lemma_range_is_part(s: Seq<char>, i: int, j: int)
    requires
        0 <= i <= j <= s.len(),
    ensures
        contains(s, s.subrange(i, j)),
        i == 0 ==> contains(s, s.take(j)),
        j == s.len() ==> contains(s, s.skip(i)),
{
    assert(s.subrange(i, i + (j - i)) =~= s.subrange(i, j));
    assert(occurs_at(s, s.subrange(i, j), i));
    if i == 0 {
        assert(s.take(j) =~= s.subrange(i, j));
    }
    if j == s.len() {
        assert(s.skip(i) =~= s.subrange(i, j));
    }
}

/// Trimming gives a part of the string.
pub proof fn lemma_trim_is_part(s: Seq<char>)
    ensures
        contains(s, trim_start(s)),
        contains(s, trim_end(s)),
        contains(s, trim(s)),
    decreases s.len(),
{
    lemma_trim_start_is_part(s);
    lemma_trim_end_is_part(s);
    lemma_trim_end_is_part(trim_start(s));
    lemma_contains_transitive(s, trim_start(s), trim(s));
}

proof fn lemma_trim_start_is_part(s: Seq<char>)
    ensures
        contains(s, trim_start(s)),
    decreases s.len(),
{
    lemma_range_is_part(s, 0, s.len() as int);
    assert(s.skip(0) =~= s);
    if s.len() > 0 {
        lemma_trim_start_is_part(s.drop_first());
        lemma_range_is_part(s, 1, s.len() as int);
        assert(s.skip(1) =~= s.drop_first());
        lemma_contains_transitive(s, s.drop_first(), trim_start(s.drop_first()));
    }
}

proof fn lemma_trim_end_is_part(s: Seq<char>)
    ensures
        contains(s, trim_end(s)),
    decreases s.len(),
{
    lemma_range_is_part(s, 0, s.len() as int);
    assert(s.skip(0) =~= s);
    if s.len() > 0 {
        lemma_trim_end_is_part(s.drop_last());
        lemma_range_is_part(s, 0, s.len() - 1);
        assert(s.take(s.len() - 1) =~= s.drop_last());
        lemma_contains_transitive(s, s.drop_last(), trim_end(s.drop_last()));
    }
}

/// Dropping a run of one character gives a part of the string.
pub proof fn lemma_trim_char_is_part(s: Seq<char>, c: char)
    ensures
        contains(s, trim_start_char(s, c)),
        contains(s, trim_end_char(s, c)),
    decreases s.len(),
{
    lemma_range_is_part(s, 0, s.len() as int);
    assert(s.skip(0) =~= s);
    if s.len() > 0 {
        lemma_trim_char_is_part(s.drop_first(), c);
        lemma_range_is_part(s, 1, s.len() as int);
        assert(s.skip(1) =~= s.drop_first());
        lemma_contains_transitive(s, s.drop_first(), trim_start_char(s.drop_first(), c));
        lemma_trim_char_is_part(s.drop_last(), c);
        lemma_range_is_part(s, 0, s.len() - 1);
        assert(s.take(s.len() - 1) =~= s.drop_last());
        lemma_contains_transitive(s, s.drop_last(), trim_end_char(s.drop_last(), c));
    }
}

/// Every line is a part of the text, and the last one ends it.
pub proof fn lemma_lines_are_parts(s: Seq<char>)
    ensures
        split_lines(s).len() > 0,
        has_suffix(s, split_lines(s).last()),
        forall|i: int| 0 <= i < split_lines(s).len() ==> contains(s, #[trigger] split_lines(s)[i]),
    decreases s.len(),
{
    if s.len() == 0 {
        assert(s.skip(0) =~= Seq::<char>::empty());
        lemma_range_is_part(s, 0, 0);
    } else {
        let t = s.drop_last();
        let before = split_lines(t);
        let lines = split_lines(s);
        lemma_lines_are_parts(t);
        lemma_range_is_part(s, 0, s.len() - 1);
        assert(s.take(s.len() - 1) =~= t);
        assert(s.skip(s.len() - lines.last().len()) =~= lines.last());
        assert forall|i: int| 0 <= i < lines.len() implies contains(s, #[trigger] lines[i]) by {
            if i == lines.len() - 1 {
                lemma_range_is_part(s, s.len() - lines.last().len(), s.len() as int);
            } else {
                assert(lines[i] == before[i]);
                lemma_contains_transitive(s, t, before[i]);
            }
        }
    }
}

/// A line without a line feed behind one is a line of its own.
pub proof fn lemma_lines_append(s: Seq<char>, line: Seq<char>)
    requires
        !line.contains('\n'),
    ensures
        split_lines(s + seq!['\n'] + line) == split_lines(s).push(line),
        split_lines(line) == seq![line],
    decreases line.len(),
{
    if line.len() == 0 {
        assert(line =~= Seq::<char>::empty());
        assert((s + seq!['\n'] + line).drop_last() =~= s);
        assert(split_lines(s + seq!['\n'] + line) =~= split_lines(s).push(line));
        assert(split_lines(line) =~= seq![line]);
    } else {
        let head = line.drop_last();
        assert forall|i: int| 0 <= i < head.len() implies head[i] != '\n' by {
            assert(line[i] == head[i]);
        }
        lemma_lines_append(s, head);
        assert((s + seq!['\n'] + line).drop_last() =~= s + seq!['\n'] + head);
        assert(line.last() != '\n');
        assert(head.push(line.last()) =~= line);
        lemma_lines_are_parts(s);
        assert(split_lines(s + seq!['\n'] + line) =~= split_lines(s).push(line));
        assert(split_lines(line) =~= seq![line]);
    }
}

/// Whether `parts` stand in `s` one behind the other, none overlapping another: the
/// last of them somewhere, and the others before it in the same way.
pub open spec fn stand_in_order(s: Seq<char>, parts: Seq<Seq<char>>) -> bool
    decreases parts.len(),
{
    parts.len() == 0 || exists|at: int| #[trigger]
        occurs_at(s, parts.last(), at) && stand_in_order(s.take(at), parts.drop_last())
}

/// What stands in the beginning of a string in order does so in the string.
pub proof fn lemma_in_order_extends(s: Seq<char>, n: int, parts: Seq<Seq<char>>)
    requires
        0 <= n <= s.len(),
        stand_in_order(s.take(n), parts),
    ensures
        stand_in_order(s, parts),
{
    if parts.len() > 0 {
        let t = s.take(n);
        let last = parts.last();
        let at = choose|at: int| #[trigger]
            occurs_at(t, last, at) && stand_in_order(t.take(at), parts.drop_last());
        assert(s.subrange(at, at + last.len()) =~= t.subrange(at, at + last.len()));
        assert(t.take(at) =~= s.take(at));
        assert(occurs_at(s, last, at));
    }
}

/// A single part is in order.
pub proof fn lemma_single_part_in_order(s: Seq<char>, part: Seq<char>)
    requires
        contains(s, part),
    ensures
        stand_in_order(s, seq![part]),
{
    let at = choose|at: int| occurs_at(s, part, at);
    let parts = seq![part];
    assert(parts.last() == part);
    assert(stand_in_order(s.take(at), parts.drop_last()));
    assert(occurs_at(s, parts.last(), at));
}

/// Parts of parts that stand in order stand in order.
pub proof fn lemma_parts_of_parts_in_order(
    s: Seq<char>,
    parts: Seq<Seq<char>>,
    inner: Seq<Seq<char>>,
)
    requires
        stand_in_order(s, parts),
        inner.len() == parts.len(),
        forall|i: int| 0 <= i < parts.len() ==> contains(parts[i], #[trigger] inner[i]),
    ensures
        stand_in_order(s, inner),
    decreases parts.len(),
{
    if parts.len() > 0 {
        let n = parts.len() - 1;
        let last = parts.last();
        let part = inner.last();
        let at = choose|at: int| #[trigger]
            occurs_at(s, last, at) && stand_in_order(s.take(at), parts.drop_last());
        assert(contains(parts[n], inner[n]));
        let k = choose|k: int| occurs_at(last, part, k);
        assert forall|i: int| 0 <= i < n implies contains(
            parts.drop_last()[i],
            #[trigger] inner.drop_last()[i],
        ) by {
            assert(contains(parts[i], inner[i]));
        }
        lemma_parts_of_parts_in_order(s.take(at), parts.drop_last(), inner.drop_last());
        let there = at + k;
        assert(s.subrange(there, there + part.len()) =~= s.subrange(
            at,
            at + last.len(),
        ).subrange(k, k + part.len()));
        assert(s.take(there).take(at) =~= s.take(at));
        lemma_in_order_extends(s.take(there), at, inner.drop_last());
        assert(occurs_at(s, inner.last(), there));
    }
}

/// Leaving parts out keeps the others in order.
pub proof fn lemma_filtered_in_order(
    s: Seq<char>,
    parts: Seq<Seq<char>>,
    keep: spec_fn(Seq<char>) -> bool,
)
    requires
        stand_in_order(s, parts),
    ensures
        stand_in_order(s, parts.filter(keep)),
    decreases parts.len(),
{
    reveal(Seq::filter);
    if parts.len() > 0 {
        let last = parts.last();
        let at = choose|at: int| #[trigger]
            occurs_at(s, last, at) && stand_in_order(s.take(at), parts.drop_last());
        lemma_filtered_in_order(s.take(at), parts.drop_last(), keep);
        let before = parts.drop_last().filter(keep);
        if keep(last) {
            let all = before.push(last);
            assert(all.drop_last() =~= before);
            assert(occurs_at(s, all.last(), at));
        } else {
            lemma_in_order_extends(s, at, before);
        }
    }
}

/// The lines of a text stand in it in order.
pub proof fn lemma_lines_in_order(s: Seq<char>)
    ensures
        stand_in_order(s, split_lines(s)),
    decreases s.len(), 1int,
{
    let lines = split_lines(s);
    let at = s.len() - lines.last().len();
    lemma_lines_before_last(s);
    lemma_lines_are_parts(s);
    assert(s.subrange(at, at + lines.last().len()) =~= s.skip(at));
    assert(occurs_at(s, lines.last(), at));
}

/// All lines but the last stand in order before it.
proof fn lemma_lines_before_last(s: Seq<char>)
    ensures
        split_lines(s).last().len() <= s.len(),
        stand_in_order(
            s.take(s.len() - split_lines(s).last().len()),
            split_lines(s).drop_last(),
        ),
    decreases s.len(), 0int,
{
    if s.len() > 0 {
        let t = s.drop_last();
        let before = split_lines(t);
        let lines = split_lines(s);
        lemma_lines_before_last(t);
        lemma_lines_are_parts(t);
        if s.last() == '\n' {
            lemma_lines_in_order(t);
            assert(s.take(s.len() as int).take(t.len() as int) =~= t);
            lemma_in_order_extends(s.take(s.len() as int), t.len() as int, before);
            assert(lines.drop_last() =~= before);
        } else {
            let n = t.len() - before.last().len();
            assert(s.take(n) =~= t.take(n));
            assert(lines.drop_last() =~= before.drop_last());
        }
    }
}

/// The count in a joined string is the sum of the counts in its parts.
pub proof fn lemma_count_char_parts(a: Seq<char>, b: Seq<char>, c: char)
    ensures
        count_char(a + b, c) == count_char(a, c) + count_char(b, c),
    decreases b.len(),
{
    if b.len() == 0 {
        assert(a + b =~= a);
    } else {
        lemma_count_char_parts(a, b.drop_last(), c);
        assert((a + b).drop_last() =~= a + b.drop_last());
    }
}

/// A character is counted in a string exactly if it stands there.
pub proof fn lemma_count_char_contains(s: Seq<char>, c: char)
    ensures
        count_char(s, c) >= 1 <==> s.contains(c),
    decreases s.len(),
{
    if s.len() > 0 {
        let t = s.drop_last();
        lemma_count_char_contains(t, c);
        if s.last() == c {
            assert(s[s.len() - 1] == c);
        } else if t.contains(c) {
            let i = choose|i: int| 0 <= i < t.len() && t[i] == c;
            assert(s[i] == c);
        } else if s.contains(c) {
            let i = choose|i: int| 0 <= i < s.len() && s[i] == c;
            assert(t[i] == c);
        }
    }
}

/// Different numbers have different hexadecimal digits.
pub proof fn lemma_lower_hex_injective(a: nat, b: nat)
    requires
        lower_hex(a) == lower_hex(b),
    ensures
        a == b,
    decreases a,
{
    let x = lower_hex(a);
    let y = lower_hex(b);
    lemma_lower_hex_not_empty(a / 16);
    lemma_lower_hex_not_empty(b / 16);
    assert(x.last() == digit_char(a % 16));
    assert(y.last() == digit_char(b % 16));
    if a >= 16 && b >= 16 {
        assert(x.drop_last() =~= lower_hex(a / 16));
        assert(y.drop_last() =~= lower_hex(b / 16));
        lemma_lower_hex_injective(a / 16, b / 16);
    }
}

proof fn lemma_lower_hex_not_empty(n: nat)
    ensures
        lower_hex(n).len() > 0,
{
}

/// Whether `s` holds nothing but whitespace.
pub open spec fn all_whitespace(s: Seq<char>) -> bool {
    forall|i: int| 0 <= i < s.len() ==> is_whitespace(#[trigger] s[i])
}

/// Whether `s` is a run of `c`.
pub open spec fn is_run(s: Seq<char>, c: char) -> bool {
    forall|i: int| 0 <= i < s.len() ==> #[trigger] s[i] == c
}

/// Trimming takes off the whitespace around a text, all of it and nothing else.
pub proof fn trimming_takes_off_the_outer_whitespace(
    before: Seq<char>,
    core: Seq<char>,
    behind: Seq<char>,
)
    requires
        all_whitespace(before),
        all_whitespace(behind),
        core.len() > 0 ==> !is_whitespace(core.first()) && !is_whitespace(core.last()),
    ensures
        trim(before + core + behind) == core,
        core.len() > 0 ==> trim_start(before + core) == core,
        core.len() > 0 ==> trim_end(core + behind) == core,
{
    lemma_trim_end_of(core, behind);
    if core.len() == 0 {
        let all = before + core + behind;
        assert forall|i: int| 0 <= i < all.len() implies is_whitespace(#[trigger] all[i]) by {
            if i < before.len() {
                assert(all[i] == before[i]);
            } else {
                assert(all[i] == behind[i - before.len()]);
            }
        }
        lemma_trim_start_of(all, Seq::empty());
        assert(all + Seq::empty() =~= all);
        assert(core =~= Seq::empty());
    } else {
        lemma_trim_start_of(before, core);
        lemma_trim_start_of(before, core + behind);
        assert(before + (core + behind) =~= before + core + behind);
    }
}

/// Leading whitespace comes off.
pub proof fn lemma_trim_start_of(before: Seq<char>, rest: Seq<char>)
    requires
        all_whitespace(before),
        rest.len() > 0 ==> !is_whitespace(rest.first()),
    ensures
        trim_start(before + rest) == rest,
    decreases before.len(),
{
    let all = before + rest;
    if before.len() == 0 {
        assert(all =~= rest);
    } else {
        assert(all.first() == before[0]);
        assert(all.drop_first() =~= before.drop_first() + rest);
        assert forall|i: int| 0 <= i < before.drop_first().len() implies is_whitespace(
            #[trigger] before.drop_first()[i],
        ) by {
            assert(is_whitespace(before[i + 1]));
        }
        lemma_trim_start_of(before.drop_first(), rest);
    }
}

/// Trailing whitespace comes off.
pub proof fn lemma_trim_end_of(rest: Seq<char>, behind: Seq<char>)
    requires
        all_whitespace(behind),
        rest.len() > 0 ==> !is_whitespace(rest.last()),
    ensures
        trim_end(rest + behind) == rest,
    decreases behind.len(),
{
    let all = rest + behind;
    if behind.len() == 0 {
        assert(all =~= rest);
    } else {
        assert(all.last() == behind[behind.len() - 1]);
        assert(all.drop_last() =~= rest + behind.drop_last());
        assert forall|i: int| 0 <= i < behind.drop_last().len() implies is_whitespace(
            #[trigger] behind.drop_last()[i],
        ) by {
            assert(is_whitespace(behind[i]));
        }
        lemma_trim_end_of(rest, behind.drop_last());
    }
}

/// Dropping a run of one character at an end drops all of it and nothing else.
pub proof fn dropping_a_run_drops_all_of_it(run: Seq<char>, rest: Seq<char>, c: char)
    requires
        is_run(run, c),
    ensures
        rest.len() > 0 && rest.first() == c || trim_start_char(run + rest, c) == rest,
        rest.len() > 0 && rest.last() == c || trim_end_char(rest + run, c) == rest,
    decreases run.len(),
{
    if run.len() == 0 {
        assert(run + rest =~= rest);
        assert(rest + run =~= rest);
    } else {
        let front = run + rest;
        let back = rest + run;
        assert(front.first() == run[0]);
        assert(front.drop_first() =~= run.drop_first() + rest);
        assert(back.last() == run[run.len() - 1]);
        assert(back.drop_last() =~= rest + run.drop_last());
        assert(run.drop_first() =~= run.drop_last()) by {
            assert forall|i: int| 0 <= i < run.len() - 1 implies run.drop_first()[i]
                == run.drop_last()[i] by {
                assert(run[i] == c && run[i + 1] == c);
            }
        }
        assert(is_run(run.drop_first(), c)) by {
            assert forall|i: int| 0 <= i < run.drop_first().len() implies #[trigger] run.drop_first()[i]
                == c by {
                assert(run[i + 1] == c);
            }
        }
        dropping_a_run_drops_all_of_it(run.drop_first(), rest, c);
    }
}

/// What trimming an end leaves, with what it took off, is the text.
pub proof fn lemma_trim_end_splits(s: Seq<char>) -> (behind: Seq<char>)
    ensures
        all_whitespace(behind),
        s == trim_end(s) + behind,
        trim_end(s).len() > 0 ==> !is_whitespace(trim_end(s).last()),
    decreases s.len(),
{
    if s.len() > 0 && is_whitespace(s.last()) {
        let shorter = lemma_trim_end_splits(s.drop_last());
        let behind = shorter.push(s.last());
        assert(trim_end(s) == trim_end(s.drop_last()));
        assert(s =~= s.drop_last().push(s.last()));
        assert(s =~= trim_end(s) + behind);
        behind
    } else {
        assert(s =~= trim_end(s) + Seq::empty());
        Seq::empty()
    }
}

/// What trimming the start leaves, with what it took off, is the text.
pub proof fn lemma_trim_start_splits(s: Seq<char>) -> (before: Seq<char>)
    ensures
        all_whitespace(before),
        s == before + trim_start(s),
        trim_start(s).len() > 0 ==> !is_whitespace(trim_start(s).first()),
    decreases s.len(),
{
    if s.len() > 0 && is_whitespace(s.first()) {
        let shorter = lemma_trim_start_splits(s.drop_first());
        let before = seq![s.first()] + shorter;
        assert(trim_start(s) == trim_start(s.drop_first()));
        assert(s =~= seq![s.first()] + s.drop_first());
        assert(s =~= before + trim_start(s));
        assert forall|i: int| 0 <= i < before.len() implies is_whitespace(#[trigger] before[i]) by {
            if i > 0 {
                assert(before[i] == shorter[i - 1]);
            }
        }
        before
    } else {
        assert(s =~= Seq::empty() + trim_start(s));
        Seq::empty()
    }
}

/// What dropping a run at the end leaves, with the run, is the text.
pub proof fn lemma_trim_end_char_splits(s: Seq<char>, c: char) -> (run: Seq<char>)
    ensures
        is_run(run, c),
        s == trim_end_char(s, c) + run,
    decreases s.len(),
{
    if s.len() > 0 && s.last() == c {
        let shorter = lemma_trim_end_char_splits(s.drop_last(), c);
        let run = shorter.push(s.last());
        assert(trim_end_char(s, c) == trim_end_char(s.drop_last(), c));
        assert(s =~= s.drop_last().push(s.last()));
        assert(s =~= trim_end_char(s, c) + run);
        run
    } else {
        assert(s =~= trim_end_char(s, c) + Seq::empty());
        Seq::empty()
    }
}

/// What dropping a run at the start leaves, with the run, is the text.
pub proof fn lemma_trim_start_char_splits(s: Seq<char>, c: char) -> (run: Seq<char>)
    ensures
        is_run(run, c),
        s == run + trim_start_char(s, c),
    decreases s.len(),
{
    if s.len() > 0 && s.first() == c {
        let shorter = lemma_trim_start_char_splits(s.drop_first(), c);
        let run = seq![c] + shorter;
        assert(trim_start_char(s, c) == trim_start_char(s.drop_first(), c));
        assert(s =~= seq![c] + s.drop_first());
        assert(s =~= run + trim_start_char(s, c));
        run
    } else {
        assert(s =~= Seq::empty() + trim_start_char(s, c));
        Seq::empty()
    }
}

/// A text starts with, ends with or holds another exactly if it is that other with
/// something around it.
pub proof fn parts_are_what_stands_between(s: Seq<char>, part: Seq<char>)
    ensures
        has_prefix(s, part) <==> exists|b: Seq<char>| s == #[trigger] (part + b),
        has_suffix(s, part) <==> exists|a: Seq<char>| s == #[trigger] (a + part),
        contains(s, part) <==> exists|a: Seq<char>, b: Seq<char>| s == #[trigger] (a + part + b),
{
    let n = part.len() as int;
    if has_prefix(s, part) {
        assert(s =~= part + s.skip(n));
    }
    if exists|b: Seq<char>| s == #[trigger] (part + b) {
        let b = choose|b: Seq<char>| s == #[trigger] (part + b);
        assert((part + b).take(n) =~= part);
    }
    if has_suffix(s, part) {
        assert(s =~= s.take(s.len() - n) + part);
    }
    if exists|a: Seq<char>| s == #[trigger] (a + part) {
        let a = choose|a: Seq<char>| s == #[trigger] (a + part);
        assert((a + part).skip(a.len() as int) =~= part);
    }
    if contains(s, part) {
        let at = choose|at: int| occurs_at(s, part, at);
        assert(s =~= s.take(at) + part + s.skip(at + n));
    }
    if exists|a: Seq<char>, b: Seq<char>| s == #[trigger] (a + part + b) {
        let (a, b) = choose|a: Seq<char>, b: Seq<char>| s == #[trigger] (a + part + b);
        let at = a.len() as int;
        assert((a + part + b).subrange(at, at + n) =~= part);
        assert(occurs_at(s, part, at));
    }
}

/// A character is counted once for each place where it stands.
pub proof fn counting_counts_every_place(s: Seq<char>, d: char, c: char)
    ensures
        count_char(Seq::empty(), c) == 0,
        count_char(s.push(d), c) == count_char(s, c) + if d == c {
            1nat
        } else {
            0nat
        },
{
    assert(s.push(d).drop_last() =~= s);
}

/// Texts joined by a line feed have the lines of both.
pub proof fn lines_of_joined_texts(a: Seq<char>, b: Seq<char>)
    ensures
        split_lines(a + seq!['\n'] + b) == split_lines(a) + split_lines(b),
        nonblank_lines(a + seq!['\n'] + b) == nonblank_lines(a) + nonblank_lines(b),
{
    lemma_split_joined(a, b);
    let cut = |l: Seq<char>| trim(l);
    let keep = |l: Seq<char>| l.len() > 0;
    let x = split_lines(a).map_values(cut);
    let y = split_lines(b).map_values(cut);
    assert((split_lines(a) + split_lines(b)).map_values(cut) =~= x + y);
    Seq::filter_distributes_over_add(x, y, keep);
}

proof fn lemma_split_joined(a: Seq<char>, b: Seq<char>)
    ensures
        split_lines(a + seq!['\n'] + b) == split_lines(a) + split_lines(b),
    decreases b.len(),
{
    let all = a + seq!['\n'] + b;
    lemma_lines_are_parts(a);
    lemma_lines_are_parts(b);
    if b.len() == 0 {
        assert(all.drop_last() =~= a);
        assert(all.last() == '\n');
        assert(split_lines(all) =~= split_lines(a) + split_lines(b));
    } else {
        let t = b.drop_last();
        lemma_split_joined(a, t);
        lemma_lines_are_parts(t);
        assert(all.drop_last() =~= a + seq!['\n'] + t);
        assert(all.last() == b.last());
        assert(split_lines(all) =~= split_lines(a) + split_lines(b));
    }
}

/// A single line counts as it is without the whitespace around it, and not at all
/// where it holds nothing else.
pub proof fn single_line_counts_trimmed(before: Seq<char>, core: Seq<char>, behind: Seq<char>)
    requires
        !(before + core + behind).contains('\n'),
        all_whitespace(before),
        all_whitespace(behind),
        core.len() > 0 ==> !is_whitespace(core.first()) && !is_whitespace(core.last()),
    ensures
        nonblank_lines(before + core + behind) == if core.len() == 0 {
            Seq::<Seq<char>>::empty()
        } else {
            seq![core]
        },
{
    let line = before + core + behind;
    trimming_takes_off_the_outer_whitespace(before, core, behind);
    lemma_lines_append(Seq::empty(), line);
    let cut = split_lines(line).map_values(|l: Seq<char>| trim(l));
    assert(cut =~= seq![core]);
    let keep = |l: Seq<char>| l.len() > 0;
    reveal(Seq::filter);
    assert(cut.drop_last() =~= Seq::<Seq<char>>::empty());
    assert(cut.drop_last().filter(keep) =~= Seq::<Seq<char>>::empty());
    assert(nonblank_lines(line) == cut.filter(keep));
    if core.len() > 0 {
        assert(cut.filter(keep) =~= seq![core]);
    }
}

/// A text of whitespace has no line that counts.
pub proof fn blank_text_has_no_lines(s: Seq<char>)
    requires
        all_whitespace(s),
    ensures
        nonblank_lines(s) == Seq::<Seq<char>>::empty(),
{
    let lines = split_lines(s);
    let cut = lines.map_values(|l: Seq<char>| trim(l));
    let keep = |l: Seq<char>| l.len() > 0;
    lemma_lines_are_parts(s);
    assert forall|i: int| 0 <= i < cut.len() implies !keep(#[trigger] cut[i]) by {
        let line = lines[i];
        assert(contains(s, line));
        let at = choose|at: int| occurs_at(s, line, at);
        assert forall|j: int| 0 <= j < line.len() implies is_whitespace(#[trigger] line[j]) by {
            assert(s.subrange(at, at + line.len())[j] == s[at + j]);
            assert(is_whitespace(s[at + j]));
        }
        trimming_takes_off_the_outer_whitespace(line, Seq::empty(), Seq::empty());
        assert(line + Seq::empty() + Seq::empty() =~= line);
    }
    if cut.filter(keep).len() > 0 {
        cut.lemma_filter_pred(keep, 0);
        let first = cut.filter(keep)[0];
        assert(cut.filter(keep).contains(first));
        cut.lemma_filter_contains_rev(keep, first);
        let j = choose|j: int| 0 <= j < cut.len() && cut[j] == first;
        assert(!keep(cut[j]));
    }
    assert(nonblank_lines(s) == cut.filter(keep));
    assert(cut.filter(keep) =~= Seq::<Seq<char>>::empty());
}

/// The number that a digit stands for; letters go on behind nine.
pub open spec fn digit_value(c: char) -> int {
    if '0' <= c <= '9' {
        c as int - '0' as int
    } else {
        c as int - 'a' as int + 10
    }
}

/// The number that digits stand for, the last one being the ones.
pub open spec fn digits_value(digits: Seq<char>, base: int) -> int
    decreases digits.len(),
{
    if digits.len() == 0 {
        0
    } else {
        digits_value(digits.drop_last(), base) * base + digit_value(digits.last())
    }
}

/// The digits of a number stand for it, without a leading zero, and are digits of
/// their base.
pub proof fn digits_stand_for_their_number(n: nat)
    ensures
        digits_value(decimal(n), 10) == n,
        digits_value(lower_hex(n), 16) == n,
        decimal(n).len() > 0,
        lower_hex(n).len() > 0,
        n > 0 ==> decimal(n).first() != '0' && lower_hex(n).first() != '0',
        n == 0 ==> decimal(n).len() == 1 && lower_hex(n).len() == 1,
        forall|i: int| 0 <= i < decimal(n).len() ==> '0' <= #[trigger] decimal(n)[i] <= '9',
        forall|i: int|
            0 <= i < lower_hex(n).len() ==> '0' <= #[trigger] lower_hex(n)[i] <= '9' || 'a'
                <= lower_hex(n)[i] <= 'f',
{
    lemma_decimal_value(n);
    lemma_hex_value(n);
}

proof fn lemma_decimal_value(n: nat)
    ensures
        digits_value(decimal(n), 10) == n,
        decimal(n).len() > 0,
        n > 0 ==> decimal(n).first() != '0',
        n == 0 ==> decimal(n).len() == 1,
        forall|i: int| 0 <= i < decimal(n).len() ==> '0' <= #[trigger] decimal(n)[i] <= '9',
    decreases n,
{
    let d = decimal(n);
    assert(digits_value(d, 10) == digits_value(d.drop_last(), 10) * 10 + digit_value(d.last()));
    if n < 10 {
        assert(d.drop_last() =~= Seq::empty());
        assert(d.last() == digit_char(n));
        assert(digit_value(digit_char(n)) == n);
    } else {
        assert(digit_value(digit_char(n % 10)) == n % 10);
        lemma_decimal_value(n / 10);
        assert(d.drop_last() =~= decimal(n / 10));
        assert(d.last() == digit_char(n % 10));
        assert(d.first() == decimal(n / 10).first());
        assert forall|i: int| 0 <= i < d.len() implies '0' <= #[trigger] d[i] <= '9' by {
            if i < d.len() - 1 {
                assert(d[i] == decimal(n / 10)[i]);
            }
        }
    }
}

proof fn lemma_hex_value(n: nat)
    ensures
        digits_value(lower_hex(n), 16) == n,
        lower_hex(n).len() > 0,
        n > 0 ==> lower_hex(n).first() != '0',
        n == 0 ==> lower_hex(n).len() == 1,
        forall|i: int|
            0 <= i < lower_hex(n).len() ==> '0' <= #[trigger] lower_hex(n)[i] <= '9' || 'a'
                <= lower_hex(n)[i] <= 'f',
    decreases n,
{
    let d = lower_hex(n);
    assert(digits_value(d, 16) == digits_value(d.drop_last(), 16) * 16 + digit_value(d.last()));
    if n < 16 {
        assert(d.drop_last() =~= Seq::empty());
        assert(d.last() == digit_char(n));
        assert(digit_value(digit_char(n)) == n);
    } else {
        assert(digit_value(digit_char(n % 16)) == n % 16);
        lemma_hex_value(n / 16);
        assert(d.drop_last() =~= lower_hex(n / 16));
        assert(d.last() == digit_char(n % 16));
        assert(d.first() == lower_hex(n / 16).first());
        assert forall|i: int| 0 <= i < d.len() implies '0' <= #[trigger] d[i] <= '9' || 'a' <= d[i]
            <= 'f' by {
            if i < d.len() - 1 {
                assert(d[i] == lower_hex(n / 16)[i]);
            }
        }
    }
}

/// Putting a text into lower case moves the upper-case ASCII letters by the distance
/// between the cases and leaves everything else in its place.
pub proof fn lowering_moves_letters_only(s: Seq<char>, i: int)
    requires
        0 <= i < s.len(),
    ensures
        lowered(s).len() == s.len(),
        'A' <= s[i] <= 'Z' ==> lowered(s)[i] as int - s[i] as int == 'a' as int - 'A' as int,
        !('A' <= s[i] <= 'Z') ==> lowered(s)[i] == s[i],
{
}

/// A list of strings is viewed string by string, in its order.
pub proof fn views_keep_every_string(v: Seq<String>, i: int)
    requires
        0 <= i < v.len(),
    ensures
        views(v).len() == v.len(),
        views(v)[i] == v[i]@,
{
}

}

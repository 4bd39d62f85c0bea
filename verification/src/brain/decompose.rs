//! Decomposition: the first step, which splits a prompt into sub-tasks that can
//! be routed one by one.
//!
//! Splitting a prompt that means one thing hurts; leaving a prompt whole does
//! not. So the rules split on explicit structural markers only, and pass
//! everything else through unchanged.

use crate::text;
use vstd::prelude::*;
use vstd::string::*;
use vstd::utf8::*;

verus! {

/// Splits prompts into sub-tasks.
pub trait Decomposer: Send {
    /// Splits `prompt` into sub-tasks to run independently; the prompt alone,
    /// unchanged, where nothing splits cleanly.
    fn decompose(&self, prompt: &str) -> Vec<String>;
}

/// Splits on lists and on questions joined by "also".
pub struct RuleBasedDecomposer;

/// How many ASCII digits `s` starts with.
pub open spec fn leading_digits(s: Seq<char>) -> nat
    decreases s.len(),
{
    if s.len() > 0 && '0' <= s.first() <= '9' {
        1 + leading_digits(s.drop_first())
    } else {
        0
    }
}

/// A line without its list marker: `- `, `* `, or digits with `.` or `)`.
pub open spec fn without_marker(line: Seq<char>) -> Option<Seq<char>> {
    let d = leading_digits(line) as int;
    if text::has_prefix(line, "- "@) || text::has_prefix(line, "* "@) {
        Some(text::trim(line.skip(2)))
    } else if 0 < d < line.len() && (line[d] == '.' || line[d] == ')') {
        Some(text::trim(line.skip(d + 1)))
    } else {
        None
    }
}

/// The entries of a list: two lines or more, each of them marked.
pub open spec fn list_entries(s: Seq<char>) -> Option<Seq<Seq<char>>> {
    let lines = text::nonblank_lines(s);
    if lines.len() >= 2 && forall|i: int|
        0 <= i < lines.len() ==> without_marker(#[trigger] lines[i]) is Some {
        Some(lines.map_values(|l: Seq<char>| without_marker(l).unwrap()))
    } else {
        None
    }
}

/// Whether `b` is an ASCII letter or digit.
pub open spec fn is_alphanumeric(b: u8) -> bool {
    0x30 <= b <= 0x39 || 0x41 <= b <= 0x5A || 0x61 <= b <= 0x7A
}

/// Whether `word` stands in `hay` at `at` with no letter or digit next to it.
pub open spec fn whole_word_at(hay: Seq<u8>, word: Seq<u8>, at: int) -> bool {
    &&& text::occurs_at(hay, word, at)
    &&& at == 0 || !is_alphanumeric(hay[at - 1])
    &&& at + word.len() >= hay.len() || !is_alphanumeric(hay[at + word.len()])
}

/// The first whole word met by a search from `start` that goes on behind every
/// occurrence which is part of a longer word.
pub open spec fn scan_word(hay: Seq<u8>, word: Seq<u8>, start: int) -> Option<int>
    decreases hay.len() - start,
{
    if start < 0 || start + word.len() > hay.len() {
        None
    } else if whole_word_at(hay, word, start) {
        Some(start)
    } else if text::occurs_at(hay, word, start) && word.len() > 0 {
        scan_word(hay, word, start + word.len())
    } else if start < hay.len() {
        scan_word(hay, word, start + 1)
    } else {
        None
    }
}

/// The byte offset at which `word` is found in `hay`.
pub open spec fn word_offset(hay: Seq<char>, word: Seq<char>) -> Option<int> {
    scan_word(encode_utf8(hay), encode_utf8(word), 0)
}

/// The first question, without what joins it to the next.
pub open spec fn question_head(s: Seq<char>) -> Seq<char> {
    let head = text::trim_end(text::trim_end_char(text::trim(s), ','));
    if text::has_suffix(head, "And"@) || text::has_suffix(head, "and"@) {
        text::trim_end(text::trim_end_char(head.take(head.len() - 3), ','))
    } else {
        head
    }
}

/// Whether a text ends as a question.
pub open spec fn is_question(s: Seq<char>) -> bool {
    s.len() > 0 && s.last() == '?'
}

/// The two sides of a prompt that joins questions by the word "also". The first ends
/// as a question and the second holds one: a mere request behind a question stays
/// with it.
pub open spec fn joined_questions(s: Seq<char>) -> Option<(Seq<char>, Seq<char>)> {
    if !is_ascii_chars(s) || text::count_char(s, '?') < 2 {
        None
    } else {
        match word_offset(text::lowered(s), "also"@) {
            None => None,
            Some(at) => {
                let head = question_head(s.take(at));
                let tail = text::trim(text::trim_start_char(s.skip(at + 4), ','));
                if is_question(head) && tail.contains('?') {
                    Some((head, tail))
                } else {
                    None
                }
            },
        }
    }
}

/// The sub-tasks of a prompt.
pub open spec fn decomposition(s: Seq<char>) -> Seq<Seq<char>> {
    match list_entries(s) {
        Some(entries) => entries,
        None => match joined_questions(s) {
            Some((head, tail)) => seq![head, tail],
            None => seq![s],
        },
    }
}

impl Decomposer for RuleBasedDecomposer {
    fn decompose(&self, prompt: &str) -> (tasks: Vec<String>)
        ensures
            text::views(tasks@) == decomposition(prompt@),
    {
        if let Some(items) = split_enumerated_list(prompt) {
            return items;
        }
        if let Some(items) = split_and_also_questions(prompt) {
            return items;
        }
        let mut tasks: Vec<String> = Vec::new();
        tasks.push(prompt.to_string());
        assert(text::views(tasks@) =~= seq![prompt@]);
        tasks
    }
}

/// Splits a numbered or bulleted list into its entries, where every non-blank
/// line carries a marker.
pub fn split_enumerated_list(prompt: &str) -> (r: Option<Vec<String>>)
    ensures
        match r {
            Some(items) => list_entries(prompt@) == Some(text::views(items@)),
            None => list_entries(prompt@) is None,
        },
{
    let lines = text::str_nonblank_lines(prompt);
    let ghost all = text::nonblank_lines(prompt@);
    let n: usize = lines.len();
    if n < 2 {
        return None;
    }
    let mut items: Vec<String> = Vec::new();
    let mut i: usize = 0;
    while i < n
        invariant
            i <= n,
            n == lines@.len(),
            n >= 2,
            all == text::nonblank_lines(prompt@),
            text::views(lines@) == all,
            items@.len() == i,
            forall|j: int|
                0 <= j < i ==> without_marker(#[trigger] all[j]) == Some(items@[j]@),
        decreases n - i,
    {
        assert(text::views(lines@)[i as int] == lines@[i as int]@);
        match strip_list_marker(lines[i].as_str()) {
            Some(rest) => {
                items.push(rest.to_string());
            },
            None => {
                assert(without_marker(all[i as int]) is None);
                return None;
            },
        }
        i = i + 1;
    }
    assert(text::views(items@) =~= all.map_values(|l: Seq<char>| without_marker(l).unwrap())) by {
        assert forall|j: int| 0 <= j < n implies text::views(items@)[j] == without_marker(
            all[j],
        ).unwrap() by {}
    }
    Some(items)
}

/// Takes the list marker off a line.
pub fn strip_list_marker(line: &str) -> (r: Option<&str>)
    ensures
        match r {
            Some(rest) => without_marker(line@) == Some(rest@),
            None => without_marker(line@) is None,
        },
{
    proof {
        reveal_strlit("- ");
        reveal_strlit("* ");
    }
    if let Some(rest) = text::str_strip_prefix(line, "- ") {
        return Some(text::str_trim(rest));
    }
    if let Some(rest) = text::str_strip_prefix(line, "* ") {
        return Some(text::str_trim(rest));
    }
    let v = text::chars_of(line);
    let n: usize = v.len();
    let mut d: usize = 0;
    assert(line@.skip(0) =~= line@);
    while d < n && '0' <= v[d] && v[d] <= '9'
        invariant
            d <= n,
            n == v@.len(),
            v@ == line@,
            leading_digits(line@) == d + leading_digits(line@.skip(d as int)),
        decreases n - d,
    {
        assert(line@.skip(d as int).drop_first() =~= line@.skip(d + 1));
        d = d + 1;
    }
    assert(leading_digits(line@) == d);
    if d == 0 || d == n {
        return None;
    }
    if v[d] == '.' || v[d] == ')' {
        assert(line@.subrange(d + 1, n as int) =~= line@.skip(d + 1));
        Some(text::str_trim(line.substring_char(d + 1, n)))
    } else {
        None
    }
}

/// Tests a byte for an ASCII letter or digit.
fn byte_is_alphanumeric(b: u8) -> (r: bool)
    ensures
        r == is_alphanumeric(b),
{
    (0x30 <= b && b <= 0x39) || (0x41 <= b && b <= 0x5A) || (0x61 <= b && b <= 0x7A)
}

/// Finds `word` in `haystack` as a whole word, not as part of a longer one, and
/// returns its byte offset.
pub fn find_word(haystack: &str, word: &str) -> (r: Option<usize>)
    requires
        word@.len() > 0 || whole_word_at(haystack.spec_bytes(), word.spec_bytes(), 0),
    ensures
        match r {
            Some(at) => word_offset(haystack@, word@) == Some(at as int),
            None => word_offset(haystack@, word@) is None,
        },
{
    let hay = haystack.as_bytes();
    let w = word.as_bytes();
    let h: usize = hay.len();
    let n: usize = w.len();
    let mut start: usize = 0;
    while start <= h && n <= h - start
        invariant
            start <= h + n,
            h == hay@.len(),
            n == w@.len(),
            hay@ == haystack.spec_bytes(),
            w@ == word.spec_bytes(),
            n == 0 ==> whole_word_at(hay@, w@, 0),
            n == 0 ==> start == 0,
            scan_word(hay@, w@, start as int) == word_offset(haystack@, word@),
        decreases h + n - start,
    {
        let mut i: usize = 0;
        while i < n && hay[start + i] == w[i]
            invariant
                i <= n,
                h == hay@.len(),
                n == w@.len(),
                start + n <= h,
                forall|j: int| 0 <= j < i ==> hay@[start + j] == w@[j],
            decreases n - i,
        {
            i = i + 1;
        }
        proof {
            let here = hay@.subrange(start as int, start + w@.len());
            if i == n {
                assert(here =~= w@);
            } else {
                assert(here[i as int] != w@[i as int]);
            }
        }
        if i == n {
            let before_ok: bool = start == 0 || !byte_is_alphanumeric(hay[start - 1]);
            let after_ok: bool = start + n >= h || !byte_is_alphanumeric(hay[start + n]);
            if before_ok && after_ok {
                return Some(start);
            }
            start = start + n;
        } else {
            start = start + 1;
        }
    }
    None
}

/// Tests whether a text ends as a question.
fn ends_as_question(s: &str) -> (r: bool)
    ensures
        r == is_question(s@),
{
    let n: usize = s.unicode_len();
    n > 0 && s.get_char(n - 1) == '?'
}

/// Splits two questions joined by the word "also".
pub fn split_and_also_questions(prompt: &str) -> (r: Option<Vec<String>>)
    ensures
        match r {
            Some(items) => joined_questions(prompt@) matches Some((head, tail)) && text::views(items@)
                == seq![head, tail],
            None => joined_questions(prompt@) is None,
        },
{
    if !prompt.is_ascii() || text::str_count_char(prompt, '?') < 2 {
        return None;
    }
    let lower = text::str_lowered(prompt);
    proof {
        reveal_strlit("also");
        reveal_strlit("And");
        reveal_strlit("and");
        is_ascii_chars_encode_utf8(lower@);
        is_ascii_chars_encode_utf8("also"@);
    }
    let at: usize = match find_word(lower.as_str(), "also") {
        Some(at) => at,
        None => {
            return None;
        },
    };
    proof {
        lemma_scan_in_range(encode_utf8(lower@), encode_utf8("also"@), 0);
        assert(encode_utf8(lower@).len() == prompt@.len());
        assert(encode_utf8("also"@).len() == 4);
        assert(prompt@.subrange(0, at as int) =~= prompt@.take(at as int));
        assert(prompt@.subrange(at + 4, prompt@.len() as int) =~= prompt@.skip(at + 4));
    }
    let n: usize = prompt.unicode_len();
    let mut head = text::str_trim(prompt.substring_ascii(0, at));
    head = text::str_trim_end(text::str_trim_end_char(head, ','));
    if let Some(stripped) = text::str_strip_suffix(head, "And") {
        head = text::str_trim_end(text::str_trim_end_char(stripped, ','));
    } else if let Some(stripped) = text::str_strip_suffix(head, "and") {
        head = text::str_trim_end(text::str_trim_end_char(stripped, ','));
    }
    assert(head@ == question_head(prompt@.take(at as int)));
    let tail = text::str_trim(text::str_trim_start_char(prompt.substring_ascii(at + 4, n), ','));
    proof {
        text::lemma_count_char_contains(tail@, '?');
    }
    if ends_as_question(head) && text::str_count_char(tail, '?') > 0 {
        let mut items: Vec<String> = Vec::new();
        items.push(head.to_string());
        items.push(tail.to_string());
        assert(text::views(items@) =~= seq![head@, tail@]);
        Some(items)
    } else {
        None
    }
}

/// What a search finds is an occurrence.
proof fn lemma_scan_in_range(hay: Seq<u8>, word: Seq<u8>, start: int)
    ensures
        scan_word(hay, word, start) matches Some(at) ==> start <= at && whole_word_at(hay, word, at),
    decreases hay.len() - start,
{
    if !(start < 0 || start + word.len() > hay.len()) && !whole_word_at(hay, word, start) {
        if text::occurs_at(hay, word, start) && word.len() > 0 {
            lemma_scan_in_range(hay, word, start + word.len());
        } else if start < hay.len() {
            lemma_scan_in_range(hay, word, start + 1);
        }
    }
}

/// There is always a sub-task to run.
pub proof fn decomposition_is_never_empty(s: Seq<char>)
    ensures
        decomposition(s).len() >= 1,
{
}

/// One non-blank line at most and one question mark at most: the prompt goes
/// through unchanged.
pub proof fn single_intent_is_unchanged(s: Seq<char>)
    requires
        text::nonblank_lines(s).len() < 2,
        text::count_char(s, '?') < 2,
    ensures
        decomposition(s) == seq![s],
{
}

/// A list is split only where every non-blank line carries a marker.
pub proof fn unmarked_line_prevents_list_split(s: Seq<char>, i: int)
    requires
        0 <= i < text::nonblank_lines(s).len(),
        without_marker(text::nonblank_lines(s)[i]) is None,
    ensures
        list_entries(s) is None,
{
}

/// A search for a word made of letters and digits finds its first occurrence as
/// a whole word, if there is one.
pub proof fn word_search_finds_the_first(hay: Seq<u8>, word: Seq<u8>)
    requires
        word.len() > 0,
        forall|i: int| 0 <= i < word.len() ==> is_alphanumeric(#[trigger] word[i]),
    ensures
        match scan_word(hay, word, 0) {
            Some(at) => whole_word_at(hay, word, at) && forall|j: int|
                0 <= j < at ==> !whole_word_at(hay, word, j),
            None => forall|j: int| !whole_word_at(hay, word, j),
        },
{
    lemma_scan_skips_nothing(hay, word, 0);
    lemma_scan_in_range(hay, word, 0);
}

/// A search from `start` misses no whole word.
proof fn lemma_scan_skips_nothing(hay: Seq<u8>, word: Seq<u8>, start: int)
    requires
        start >= 0,
        word.len() > 0,
        forall|i: int| 0 <= i < word.len() ==> is_alphanumeric(#[trigger] word[i]),
    ensures
        match scan_word(hay, word, start) {
            Some(at) => forall|j: int| start <= j < at ==> !whole_word_at(hay, word, j),
            None => forall|j: int| start <= j ==> !whole_word_at(hay, word, j),
        },
    decreases hay.len() - start,
{
    if start + word.len() > hay.len() || whole_word_at(hay, word, start) {
    } else if text::occurs_at(hay, word, start) {
        lemma_scan_skips_nothing(hay, word, start + word.len());
        assert forall|j: int| start < j < start + word.len() implies !whole_word_at(
            hay,
            word,
            j,
        ) by {
            assert(hay.subrange(start, start + word.len())[j - 1 - start] == hay[j - 1]);
            assert(is_alphanumeric(word[j - 1 - start]));
        }
    } else {
        lemma_scan_skips_nothing(hay, word, start + 1);
    }
}

/// Decomposition invents no text: every sub-task stands in the prompt.
pub proof fn sub_tasks_stand_in_the_prompt(s: Seq<char>)
    ensures
        forall|i: int|
            0 <= i < decomposition(s).len() ==> text::contains(s, #[trigger] decomposition(s)[i]),
{
    if list_entries(s) is Some {
        lemma_entries_are_parts(s);
    } else if joined_questions(s) is Some {
        let (head, tail) = joined_questions(s).unwrap();
        let at = lemma_questions_are_parts(s);
        text::lemma_range_is_part(s, 0, at);
        text::lemma_contains_transitive(s, s.take(at), head);
        text::lemma_range_is_part(s, at + 4, s.len() as int);
        text::lemma_contains_transitive(s, s.skip(at + 4), tail);
    } else {
        text::lemma_range_is_part(s, 0, s.len() as int);
        assert(s.skip(0) =~= s);
    }
}

/// The sub-tasks stand in the prompt in their order, none of them overlapping
/// another.
pub proof fn sub_tasks_stand_in_order(s: Seq<char>)
    ensures
        text::stand_in_order(s, decomposition(s)),
{
    if list_entries(s) is Some {
        lemma_entries_in_order(s);
    } else if joined_questions(s) is Some {
        lemma_questions_in_order(s);
    } else {
        text::lemma_range_is_part(s, 0, s.len() as int);
        assert(s.skip(0) =~= s);
        text::lemma_single_part_in_order(s, s);
    }
}

proof fn lemma_entries_in_order(s: Seq<char>)
    requires
        list_entries(s) is Some,
    ensures
        text::stand_in_order(s, list_entries(s).unwrap()),
{
    let lines = text::nonblank_lines(s);
    let entries = list_entries(s).unwrap();
    let all = text::split_lines(s);
    let cut = all.map_values(|l: Seq<char>| text::trim(l));
    text::lemma_lines_in_order(s);
    assert forall|i: int| 0 <= i < all.len() implies text::contains(
        all[i],
        #[trigger] cut[i],
    ) by {
        text::lemma_trim_is_part(all[i]);
    }
    text::lemma_parts_of_parts_in_order(s, all, cut);
    text::lemma_filtered_in_order(s, cut, |l: Seq<char>| l.len() > 0);
    assert forall|i: int| 0 <= i < lines.len() implies text::contains(
        lines[i],
        #[trigger] entries[i],
    ) by {
        assert(without_marker(lines[i]) is Some);
        lemma_entry_is_part(lines[i]);
    }
    text::lemma_parts_of_parts_in_order(s, lines, entries);
}

proof fn lemma_entries_are_parts(s: Seq<char>)
    requires
        list_entries(s) is Some,
    ensures
        forall|i: int|
            0 <= i < list_entries(s).unwrap().len() ==> text::contains(
                s,
                #[trigger] list_entries(s).unwrap()[i],
            ),
{
    let lines = text::nonblank_lines(s);
    let entries = list_entries(s).unwrap();
    assert forall|i: int| 0 <= i < entries.len() implies text::contains(
        s,
        #[trigger] entries[i],
    ) by {
        lemma_nonblank_line_is_part(s, i);
        assert(without_marker(lines[i]) is Some);
        lemma_entry_is_part(lines[i]);
        text::lemma_contains_transitive(s, lines[i], entries[i]);
    }
}

proof fn lemma_nonblank_line_is_part(s: Seq<char>, i: int)
    requires
        0 <= i < text::nonblank_lines(s).len(),
    ensures
        text::contains(s, text::nonblank_lines(s)[i]),
{
    let cut = text::split_lines(s).map_values(|l: Seq<char>| text::trim(l));
    let keep = |l: Seq<char>| l.len() > 0;
    let line = text::nonblank_lines(s)[i];
    assert(text::nonblank_lines(s) == cut.filter(keep));
    assert(cut.filter(keep).contains(line));
    cut.lemma_filter_contains_rev(keep, line);
    let j = choose|j: int| 0 <= j < cut.len() && cut[j] == line;
    text::lemma_lines_are_parts(s);
    text::lemma_trim_is_part(text::split_lines(s)[j]);
    text::lemma_contains_transitive(s, text::split_lines(s)[j], line);
}

proof fn lemma_entry_is_part(line: Seq<char>)
    requires
        without_marker(line) is Some,
    ensures
        text::contains(line, without_marker(line).unwrap()),
{
    reveal_strlit("- ");
    reveal_strlit("* ");
    let d = leading_digits(line) as int;
    let from = if text::has_prefix(line, "- "@) || text::has_prefix(line, "* "@) {
        2
    } else {
        d + 1
    };
    text::lemma_range_is_part(line, from, line.len() as int);
    text::lemma_trim_is_part(line.skip(from));
    text::lemma_contains_transitive(line, line.skip(from), text::trim(line.skip(from)));
}

proof fn lemma_head_is_part(s: Seq<char>)
    ensures
        text::contains(s, question_head(s)),
{
    reveal_strlit("And");
    reveal_strlit("and");
    text::lemma_trim_is_part(s);
    lemma_clean_end_is_part(text::trim(s));
    let head = text::trim_end(text::trim_end_char(text::trim(s), ','));
    text::lemma_contains_transitive(s, text::trim(s), head);
    if text::has_suffix(head, "And"@) || text::has_suffix(head, "and"@) {
        let cut = head.take(head.len() - 3);
        text::lemma_range_is_part(head, 0, head.len() - 3);
        text::lemma_contains_transitive(s, head, cut);
        lemma_clean_end_is_part(cut);
        text::lemma_contains_transitive(s, cut, question_head(s));
    }
}

proof fn lemma_clean_end_is_part(s: Seq<char>)
    ensures
        text::contains(s, text::trim_end(text::trim_end_char(s, ','))),
{
    let t = text::trim_end_char(s, ',');
    text::lemma_trim_char_is_part(s, ',');
    text::lemma_trim_is_part(t);
    text::lemma_contains_transitive(s, t, text::trim_end(t));
}

/// Where the two questions stand: one before the joining word, one behind it.
proof fn lemma_questions_are_parts(s: Seq<char>) -> (at: int)
    requires
        joined_questions(s) is Some,
    ensures
        0 <= at,
        at + 4 <= s.len(),
        text::contains(s.take(at), joined_questions(s).unwrap().0),
        text::contains(s.skip(at + 4), joined_questions(s).unwrap().1),
{
    reveal_strlit("also");
    let lower = text::lowered(s);
    lemma_lowered_is_ascii(s);
    is_ascii_chars_encode_utf8(lower);
    is_ascii_chars_encode_utf8("also"@);
    let at = word_offset(lower, "also"@).unwrap();
    lemma_scan_in_range(encode_utf8(lower), encode_utf8("also"@), 0);
    lemma_head_is_part(s.take(at));
    let rest = s.skip(at + 4);
    let t = text::trim_start_char(rest, ',');
    text::lemma_trim_char_is_part(rest, ',');
    text::lemma_trim_is_part(t);
    text::lemma_contains_transitive(rest, t, text::trim(t));
    at
}

proof fn lemma_questions_in_order(s: Seq<char>)
    requires
        joined_questions(s) is Some,
    ensures
        text::stand_in_order(
            s,
            seq![joined_questions(s).unwrap().0, joined_questions(s).unwrap().1],
        ),
{
    let (head, tail) = joined_questions(s).unwrap();
    let at = lemma_questions_are_parts(s);
    let rest = s.skip(at + 4);
    let k = choose|k: int| text::occurs_at(rest, tail, k);
    let there = at + 4 + k;
    assert(s.subrange(there, there + tail.len()) =~= rest.subrange(k, k + tail.len()));
    assert(text::occurs_at(s, tail, there));
    let before = s.take(there);
    assert(before.take(at) =~= s.take(at));
    text::lemma_range_is_part(before, 0, at);
    text::lemma_contains_transitive(before, s.take(at), head);
    text::lemma_single_part_in_order(before, head);
    let both = seq![head, tail];
    assert(both.drop_last() =~= seq![head]);
    assert(both.last() == tail);
}

/// Whether `m` marks a list entry: `- `, `* `, or a number with `. ` or `) `.
pub open spec fn is_marker(m: Seq<char>) -> bool {
    ||| m == "- "@
    ||| m == "* "@
    ||| {
        &&& m.len() >= 3
        &&& forall|i: int| 0 <= i < m.len() - 2 ==> '0' <= #[trigger] m[i] <= '9'
        &&& m[m.len() - 2] == '.' || m[m.len() - 2] == ')'
        &&& m.last() == ' '
    }
}

/// Whether a list entry is plain: not empty, on one line, trimmed.
pub open spec fn is_plain_entry(e: Seq<char>) -> bool {
    e.len() > 0 && !e.contains('\n') && text::trim(e) == e
}

/// A list, one marked entry to a line.
pub open spec fn list_text(markers: Seq<Seq<char>>, entries: Seq<Seq<char>>) -> Seq<char>
    decreases entries.len(),
{
    if entries.len() == 0 {
        Seq::empty()
    } else if entries.len() == 1 {
        markers[0] + entries[0]
    } else {
        list_text(markers, entries.drop_last()) + seq!['\n'] + (markers[entries.len() - 1]
            + entries.last())
    }
}

/// The lines of a list.
pub open spec fn list_lines(markers: Seq<Seq<char>>, entries: Seq<Seq<char>>) -> Seq<Seq<char>> {
    Seq::new(entries.len(), |i: int| markers[i] + entries[i])
}

/// A numbered or bulleted list of two plain entries or more splits into those
/// entries, whichever markers it mixes.
pub proof fn marked_list_splits_into_its_entries(
    markers: Seq<Seq<char>>,
    entries: Seq<Seq<char>>,
)
    requires
        entries.len() >= 2,
        markers.len() == entries.len(),
        forall|i: int| 0 <= i < markers.len() ==> is_marker(#[trigger] markers[i]),
        forall|i: int| 0 <= i < entries.len() ==> is_plain_entry(#[trigger] entries[i]),
    ensures
        decomposition(list_text(markers, entries)) == entries,
{
    let s = list_text(markers, entries);
    let marked = list_lines(markers, entries);
    lemma_list_lines(markers, entries);
    let cut = marked.map_values(|l: Seq<char>| text::trim(l));
    let keep = |l: Seq<char>| l.len() > 0;
    assert forall|i: int| 0 <= i < entries.len() implies cut[i] == marked[i] && without_marker(
        marked[i],
    ) == Some(entries[i]) && marked[i].len() > 0 by {
        lemma_marker_comes_off(markers[i], entries[i]);
    }
    assert(cut =~= marked);
    lemma_filter_all(marked, keep);
    assert(text::nonblank_lines(s) == marked);
    assert(decomposition(s) =~= entries);
}

proof fn lemma_filter_all(v: Seq<Seq<char>>, keep: spec_fn(Seq<char>) -> bool)
    requires
        forall|i: int| 0 <= i < v.len() ==> keep(#[trigger] v[i]),
    ensures
        v.filter(keep) == v,
    decreases v.len(),
{
    reveal(Seq::filter);
    if v.len() > 0 {
        assert forall|i: int| 0 <= i < v.drop_last().len() implies keep(
            #[trigger] v.drop_last()[i],
        ) by {
            assert(keep(v[i]));
        }
        lemma_filter_all(v.drop_last(), keep);
        assert(v.drop_last().push(v.last()) =~= v);
    }
}

proof fn lemma_leading_digits(s: Seq<char>, n: int)
    requires
        0 <= n < s.len(),
        forall|i: int| 0 <= i < n ==> '0' <= #[trigger] s[i] <= '9',
        !('0' <= s[n] <= '9'),
    ensures
        leading_digits(s) == n,
    decreases n,
{
    if n > 0 {
        assert forall|i: int| 0 <= i < n - 1 implies '0' <= #[trigger] s.drop_first()[i]
            <= '9' by {
            assert('0' <= s[i + 1] <= '9');
        }
        lemma_leading_digits(s.drop_first(), n - 1);
        assert('0' <= s[0] <= '9');
    }
}

proof fn lemma_marker_comes_off(m: Seq<char>, e: Seq<char>)
    requires
        is_marker(m),
        is_plain_entry(e),
    ensures
        text::trim(m + e) == m + e,
        without_marker(m + e) == Some(e),
        !(m + e).contains('\n'),
{
    reveal_strlit("- ");
    reveal_strlit("* ");
    let line = m + e;
    let k = m.len() as int;
    text::lemma_trimmed_ends(e);
    assert(line.first() == m.first());
    assert(line.last() == e.last());
    assert forall|i: int| 0 <= i < line.len() implies line[i] != '\n' by {
        if i >= k {
            assert(line[i] == e[i - k]);
        } else {
            assert(line[i] == m[i]);
        }
    }
    if m == "- "@ || m == "* "@ {
        assert(line.take(2) =~= m);
        assert(line.skip(2) =~= e);
    } else {
        let d = k - 2;
        assert('0' <= m[0] <= '9');
        assert(line.take(2)[0] == m[0]);
        assert forall|i: int| 0 <= i < d implies '0' <= #[trigger] line[i] <= '9' by {
            assert(line[i] == m[i]);
        }
        assert(line[d] == m[d]);
        lemma_leading_digits(line, d);
        let rest = line.skip(d + 1);
        assert(rest.first() == ' ');
        assert(rest.drop_first() =~= e);
        assert(text::trim_start(rest) == text::trim_start(e));
        assert(text::trim(rest) == e);
    }
}

proof fn lemma_list_lines(markers: Seq<Seq<char>>, entries: Seq<Seq<char>>)
    requires
        1 <= entries.len() <= markers.len(),
        forall|i: int| 0 <= i < markers.len() ==> is_marker(#[trigger] markers[i]),
        forall|i: int| 0 <= i < entries.len() ==> is_plain_entry(#[trigger] entries[i]),
    ensures
        text::split_lines(list_text(markers, entries)) == list_lines(markers, entries),
    decreases entries.len(),
{
    let m = markers[entries.len() - 1];
    let last = m + entries.last();
    assert(is_marker(m));
    lemma_marker_comes_off(m, entries.last());
    if entries.len() == 1 {
        text::lemma_lines_append(Seq::empty(), last);
    } else {
        assert forall|i: int| 0 <= i < entries.drop_last().len() implies is_plain_entry(
            #[trigger] entries.drop_last()[i],
        ) by {
            assert(is_plain_entry(entries[i]));
        }
        lemma_list_lines(markers, entries.drop_last());
        text::lemma_lines_append(list_text(markers, entries.drop_last()), last);
    }
    assert(text::split_lines(list_text(markers, entries)) =~= list_lines(markers, entries));
}

/// Without the word "also", or with fewer than two question marks, a prompt is not
/// taken for joined questions; an "and" alone is not enough.
pub proof fn joined_questions_need_also_and_two_marks(s: Seq<char>)
    requires
        text::count_char(s, '?') < 2 || forall|j: int| !#[trigger] whole_word_at(
            encode_utf8(text::lowered(s)),
            encode_utf8("also"@),
            j,
        ),
    ensures
        joined_questions(s) is None,
{
    lemma_scan_in_range(encode_utf8(text::lowered(s)), encode_utf8("also"@), 0);
}

/// Of a split at "also" come a question and a text that holds one.
pub proof fn joined_questions_are_questions(s: Seq<char>)
    ensures
        joined_questions(s) matches Some((head, tail)) ==> is_question(head) && tail.contains('?'),
{
}

/// Two questions joined by "also", with or without an "and" before it and a comma
/// behind it.
pub open spec fn questions_text(
    head: Seq<char>,
    conjunction: Seq<char>,
    also: Seq<char>,
    separator: Seq<char>,
    tail: Seq<char>,
) -> Seq<char> {
    head + seq![' '] + conjunction + also + separator + tail
}

/// Two questions joined by "also" split into the two, where the first does not
/// hold that word itself.
#[verifier::spinoff_prover]
pub proof fn joined_questions_split(
    head: Seq<char>,
    conjunction: Seq<char>,
    also: Seq<char>,
    separator: Seq<char>,
    tail: Seq<char>,
)
    requires
        is_ascii_chars(head),
        is_ascii_chars(tail),
        is_question(head),
        tail.contains('?'),
        text::trim(head) == head,
        text::trim(tail) == tail,
        forall|j: int| !#[trigger] whole_word_at(
            encode_utf8(text::lowered(head)),
            encode_utf8("also"@),
            j,
        ),
        conjunction.len() == 0 || conjunction == "And "@ || conjunction == "and "@,
        text::lowered(also) == "also"@,
        separator == " "@ || separator == ", "@,
        list_entries(questions_text(head, conjunction, also, separator, tail)) is None,
    ensures
        decomposition(questions_text(head, conjunction, also, separator, tail)) == seq![head, tail],
{
    let s = questions_text(head, conjunction, also, separator, tail);
    let before = head + seq![' '] + conjunction;
    let at = before.len() as int;
    reveal_strlit("also");
    reveal_strlit("And ");
    reveal_strlit("and ");
    reveal_strlit(" ");
    reveal_strlit(", ");
    assert(also.len() == text::lowered(also).len());
    assert(s.take(at) =~= before);
    assert(s.skip(at + 4) =~= separator + tail);
    lemma_questions_are_ascii(head, conjunction, also, separator, tail);
    text::lemma_count_char_parts(head, seq![' '] + conjunction + also + separator, '?');
    text::lemma_count_char_parts(
        head + (seq![' '] + conjunction + also + separator),
        tail,
        '?',
    );
    text::lemma_count_char_contains(head, '?');
    text::lemma_count_char_contains(tail, '?');
    assert(s =~= head + (seq![' '] + conjunction + also + separator) + tail);
    lemma_also_is_found(head, conjunction, also, separator, tail);
    lemma_question_head(head, conjunction);
    lemma_question_tail(separator, tail);
}

proof fn lemma_questions_are_ascii(
    head: Seq<char>,
    conjunction: Seq<char>,
    also: Seq<char>,
    separator: Seq<char>,
    tail: Seq<char>,
)
    requires
        is_ascii_chars(head),
        is_ascii_chars(tail),
        conjunction.len() == 0 || conjunction == "And "@ || conjunction == "and "@,
        text::lowered(also) == "also"@,
        separator == " "@ || separator == ", "@,
    ensures
        is_ascii_chars(questions_text(head, conjunction, also, separator, tail)),
{
    reveal_strlit("also");
    reveal_strlit("And ");
    reveal_strlit("and ");
    reveal_strlit(" ");
    reveal_strlit(", ");
    assert(is_ascii_chars("also"@));
    assert(also.len() == text::lowered(also).len());
    assert forall|i: int| 0 <= i < also.len() implies '\0' <= #[trigger] also[i] <= '\u{7f}' by {
        assert("also"@[i] == text::ascii_lower(also[i]));
    }
    assert(is_ascii_chars(conjunction));
    assert(is_ascii_chars(separator));
    let s = questions_text(head, conjunction, also, separator, tail);
    let h = head.len() as int;
    let c = conjunction.len() as int;
    let a = also.len() as int;
    let p = separator.len() as int;
    assert forall|i: int| 0 <= i < s.len() implies (#[trigger] s[i]) as u32 <= 127 by {
        if i < h {
            assert(s[i] == head[i]);
        } else if i == h {
            assert(s[i] == ' ');
        } else if i < h + 1 + c {
            assert(s[i] == conjunction[i - h - 1]);
        } else if i < h + 1 + c + a {
            assert(s[i] == also[i - h - 1 - c]);
        } else if i < h + 1 + c + a + p {
            assert(s[i] == separator[i - h - 1 - c - a]);
        } else {
            assert(s[i] == tail[i - h - 1 - c - a - p]);
        }
    }
}

/// The search meets the joining "also" first.
#[verifier::spinoff_prover]
#[verifier::rlimit(40)]
proof fn lemma_also_is_found(
    head: Seq<char>,
    conjunction: Seq<char>,
    also: Seq<char>,
    separator: Seq<char>,
    tail: Seq<char>,
)
    requires
        is_ascii_chars(head),
        is_ascii_chars(tail),
        head.len() > 0,
        head.last() == '?',
        forall|j: int| !#[trigger] whole_word_at(
            encode_utf8(text::lowered(head)),
            encode_utf8("also"@),
            j,
        ),
        conjunction.len() == 0 || conjunction == "And "@ || conjunction == "and "@,
        text::lowered(also) == "also"@,
        separator == " "@ || separator == ", "@,
    ensures
        word_offset(
            text::lowered(questions_text(head, conjunction, also, separator, tail)),
            "also"@,
        ) == Some((head.len() + 1 + conjunction.len()) as int),
{
    reveal_strlit("also");
    reveal_strlit("And ");
    reveal_strlit("and ");
    reveal_strlit(" ");
    reveal_strlit(", ");
    let s = questions_text(head, conjunction, also, separator, tail);
    let h = head.len() as int;
    let at = h + 1 + conjunction.len();
    let lower = text::lowered(s);
    lemma_questions_are_ascii(head, conjunction, also, separator, tail);
    lemma_lowered_is_ascii(s);
    lemma_lowered_is_ascii(head);
    is_ascii_chars_encode_utf8(lower);
    is_ascii_chars_encode_utf8(text::lowered(head));
    is_ascii_chars_encode_utf8("also"@);
    let hay = encode_utf8(lower);
    let first = encode_utf8(text::lowered(head));
    let word = encode_utf8("also"@);
    assert(also.len() == text::lowered(also).len());
    assert forall|i: int| 0 <= i < 4 implies hay[at + i] == word[i] by {
        assert(s[at + i] == also[i]);
        assert(text::lowered(also)[i] == lower[at + i]);
    }
    assert(hay.subrange(at, at + word.len()) =~= word);
    assert(s[at - 1] == ' ');
    assert(s[at + 4] == separator[0]);
    assert(whole_word_at(hay, word, at));
    assert forall|i: int| 0 <= i < h implies hay[i] == first[i] by {
        assert(s[i] == head[i]);
    }
    assert(hay[h - 1] == 0x3F) by {
        assert(s[h - 1] == '?');
    }
    assert(hay[h] == 0x20) by {
        assert(s[h] == ' ');
    }
    assert forall|i: int| 0 <= i < conjunction.len() implies hay[h + 1 + i] == text::ascii_lower(
        conjunction[i],
    ) as u8 by {
        assert(s[h + 1 + i] == conjunction[i]);
    }
    assert(word =~= seq![0x61u8, 0x6C, 0x73, 0x6F]);
    lemma_no_also_before(hay, first, word, at);
    assert forall|i: int| 0 <= i < word.len() implies is_alphanumeric(#[trigger] word[i]) by {}
    word_search_finds_the_first(hay, word);
}

/// Neither the question nor the conjunction holds the word.
#[verifier::spinoff_prover]
proof fn lemma_no_also_before(hay: Seq<u8>, first: Seq<u8>, word: Seq<u8>, at: int)
    requires
        word == seq![0x61u8, 0x6C, 0x73, 0x6F],
        first.len() > 0,
        first.len() < at <= hay.len(),
        at == first.len() + 1 || at == first.len() + 5,
        forall|i: int| 0 <= i < first.len() ==> hay[i] == #[trigger] first[i],
        hay[first.len() - 1] == 0x3F,
        hay[first.len() as int] == 0x20,
        at == first.len() + 5 ==> hay[at - 3] == 0x6E && hay[at - 2] == 0x64
            && hay[at - 1] == 0x20,
        forall|j: int| !#[trigger] whole_word_at(first, word, j),
    ensures
        forall|j: int| 0 <= j < at ==> !#[trigger] whole_word_at(hay, word, j),
{
    let h = first.len() as int;
    assert forall|j: int| 0 <= j < at implies !#[trigger] whole_word_at(hay, word, j) by {
        if text::occurs_at(hay, word, j) {
            let here = hay.subrange(j, j + word.len());
            assert(here[0] == hay[j]);
            assert(here[1] == hay[j + 1]);
            if j + 4 <= h {
                assert(here =~= first.subrange(j, j + word.len()));
                assert(!whole_word_at(first, word, j));
                if j + 4 < h {
                    assert(hay[j + 4] == first[j + 4]);
                }
                if j > 0 {
                    assert(hay[j - 1] == first[j - 1]);
                }
            } else if j < h {
                assert(here[h - 1 - j] == hay[h - 1]);
            }
        }
    }
}

proof fn lemma_lowered_is_ascii(s: Seq<char>)
    requires
        is_ascii_chars(s),
    ensures
        is_ascii_chars(text::lowered(s)),
{
    let lower = text::lowered(s);
    assert forall|i: int| 0 <= i < lower.len() implies (#[trigger] lower[i]) as u32 <= 127 by {
        assert((s[i] as u32) <= 127);
    }
}

proof fn lemma_question_head(head: Seq<char>, conjunction: Seq<char>)
    requires
        head.len() > 0,
        text::trim(head) == head,
        head.last() == '?',
        conjunction.len() == 0 || conjunction == "And "@ || conjunction == "and "@,
    ensures
        question_head(head + seq![' '] + conjunction) == head,
{
    reveal_strlit("And");
    reveal_strlit("and");
    reveal_strlit("And ");
    reveal_strlit("and ");
    let spaced = head + seq![' '];
    let before = spaced + conjunction;
    text::lemma_trimmed_ends(head);
    assert(before.first() == head.first());
    assert(text::trim_start(before) == before);
    assert(spaced.drop_last() =~= head);
    assert(text::trim_end(head) == head);
    assert(text::trim_end(spaced) == head);
    if conjunction.len() == 0 {
        assert(before =~= spaced);
        assert(text::trim_end_char(head, ',') == head);
        if text::has_suffix(head, "And"@) || text::has_suffix(head, "and"@) {
            assert(head.skip(head.len() - 3)[2] == head.last());
        }
    } else {
        let cut = before.drop_last();
        assert(cut.last() == 'd');
        assert(text::trim_end(cut) == cut);
        assert(text::trim(before) == cut);
        assert(text::trim_end_char(cut, ',') == cut);
        assert(cut.skip(cut.len() - 3) =~= conjunction.take(3));
        if conjunction == "And "@ {
            assert(conjunction.take(3) =~= "And"@);
        } else {
            assert(conjunction.take(3) =~= "and"@);
        }
        assert(cut.take(cut.len() - 3) =~= spaced);
        assert(spaced.last() == ' ');
        assert(text::trim_end_char(spaced, ',') == spaced);
    }
}

proof fn lemma_question_tail(separator: Seq<char>, tail: Seq<char>)
    requires
        separator == " "@ || separator == ", "@,
        tail.len() > 0,
        text::trim(tail) == tail,
    ensures
        text::trim(text::trim_start_char(separator + tail, ',')) == tail,
{
    reveal_strlit(" ");
    reveal_strlit(", ");
    let spaced = seq![' '] + tail;
    assert(spaced.first() == ' ');
    assert(spaced.drop_first() =~= tail);
    assert(text::trim_start_char(spaced, ',') == spaced);
    assert(text::trim_start(spaced) == text::trim_start(tail));
    if separator == " "@ {
        assert(separator + tail =~= spaced);
    } else {
        assert((separator + tail).drop_first() =~= spaced);
    }
}

/// Whether `m` marks a list entry: `- `, `* `, or a number with `.` or `)`.
pub open spec fn marks_entry(m: Seq<char>) -> bool {
    ||| m == seq!['-', ' ']
    ||| m == seq!['*', ' ']
    ||| {
        &&& m.len() >= 2
        &&& forall|i: int| 0 <= i < m.len() - 1 ==> '0' <= #[trigger] m[i] <= '9'
        &&& m.last() == '.' || m.last() == ')'
    }
}

/// What a line holds behind its marker is the entry, without the whitespace around it.
pub proof fn entry_is_what_follows_the_marker(
    marker: Seq<char>,
    before: Seq<char>,
    entry: Seq<char>,
    behind: Seq<char>,
)
    requires
        marks_entry(marker),
        text::all_whitespace(before),
        text::all_whitespace(behind),
        entry.len() > 0 ==> !text::is_whitespace(entry.first()) && !text::is_whitespace(
            entry.last(),
        ),
    ensures
        without_marker(marker + (before + entry + behind)) == Some(entry),
{
    reveal_strlit("- ");
    reveal_strlit("* ");
    let rest = before + entry + behind;
    let line = marker + rest;
    let k = marker.len() as int;
    text::trimming_takes_off_the_outer_whitespace(before, entry, behind);
    assert(line.skip(k) =~= rest);
    if marker == seq!['-', ' '] || marker == seq!['*', ' '] {
        assert(line.take(2) =~= marker);
        assert("- "@ =~= seq!['-', ' ']);
        assert("* "@ =~= seq!['*', ' ']);
    } else {
        assert('0' <= marker[0] <= '9');
        assert(line.take(2)[0] == marker[0]);
        assert forall|i: int| 0 <= i < k - 1 implies '0' <= #[trigger] line[i] <= '9' by {
            assert(line[i] == marker[i]);
        }
        assert(line[k - 1] == marker[k - 1]);
        lemma_leading_digits(line, k - 1);
    }
}

/// A line that has an entry starts with a marker.
pub proof fn entries_come_from_marked_lines(line: Seq<char>)
    requires
        without_marker(line) is Some,
    ensures
        exists|k: int| 0 < k <= line.len() && #[trigger] marks_entry(line.take(k)),
{
    reveal_strlit("- ");
    reveal_strlit("* ");
    if text::has_prefix(line, "- "@) || text::has_prefix(line, "* "@) {
        assert("- "@ =~= seq!['-', ' ']);
        assert("* "@ =~= seq!['*', ' ']);
        assert(marks_entry(line.take(2)));
    } else {
        let d = leading_digits(line) as int;
        lemma_leading_are_digits(line);
        let m = line.take(d + 1);
        assert forall|i: int| 0 <= i < m.len() - 1 implies '0' <= #[trigger] m[i] <= '9' by {
            assert(m[i] == line[i]);
        }
        assert(marks_entry(line.take(d + 1)));
    }
}

proof fn lemma_leading_are_digits(s: Seq<char>)
    ensures
        leading_digits(s) <= s.len(),
        forall|i: int| 0 <= i < leading_digits(s) ==> '0' <= #[trigger] s[i] <= '9',
    decreases s.len(),
{
    if s.len() > 0 && '0' <= s.first() <= '9' {
        lemma_leading_are_digits(s.drop_first());
        assert forall|i: int| 0 <= i < leading_digits(s) implies '0' <= #[trigger] s[i] <= '9' by {
            if i > 0 {
                assert(s[i] == s.drop_first()[i - 1]);
            }
        }
    }
}

/// Two non-blank lines or more, each with a marker: there is one sub-task for each of
/// them, in their order, and it is the line without its marker.
pub proof fn every_marked_line_becomes_a_sub_task(s: Seq<char>)
    requires
        text::nonblank_lines(s).len() >= 2,
        forall|i: int|
            0 <= i < text::nonblank_lines(s).len() ==> without_marker(
                #[trigger] text::nonblank_lines(s)[i],
            ) is Some,
    ensures
        decomposition(s).len() == text::nonblank_lines(s).len(),
        forall|i: int|
            0 <= i < text::nonblank_lines(s).len() ==> Some(#[trigger] decomposition(s)[i])
                == without_marker(text::nonblank_lines(s)[i]),
        list_entries(s) == Some(decomposition(s)),
{
    let lines = text::nonblank_lines(s);
    assert forall|i: int| 0 <= i < lines.len() implies Some(#[trigger] decomposition(s)[i])
        == without_marker(lines[i]) by {
        assert(without_marker(lines[i]) is Some);
    }
}

/// Blank lines and whitespace before a list, inside it between two lines, or behind it,
/// a line feed at the end among them, do not change its sub-tasks.
#[verifier::spinoff_prover]
pub proof fn blank_lines_do_not_change_a_list(a: Seq<char>, b: Seq<char>, blank: Seq<char>)
    requires
        text::all_whitespace(blank),
        text::nonblank_lines(a + seq!['\n'] + b).len() >= 2,
        forall|i: int|
            0 <= i < text::nonblank_lines(a + seq!['\n'] + b).len() ==> without_marker(
                #[trigger] text::nonblank_lines(a + seq!['\n'] + b)[i],
            ) is Some,
    ensures
        decomposition(a + seq!['\n'] + blank + seq!['\n'] + b) == decomposition(
            a + seq!['\n'] + b,
        ),
        decomposition(blank + seq!['\n'] + (a + seq!['\n'] + b)) == decomposition(
            a + seq!['\n'] + b,
        ),
        decomposition(a + seq!['\n'] + b + seq!['\n'] + blank) == decomposition(
            a + seq!['\n'] + b,
        ),
        decomposition(a + seq!['\n'] + b + seq!['\n']) == decomposition(a + seq!['\n'] + b),
{
    let s = a + seq!['\n'] + b;
    let lines = text::nonblank_lines(s);
    let none = Seq::<char>::empty();
    text::blank_text_has_no_lines(blank);
    text::blank_text_has_no_lines(none);
    text::lines_of_joined_texts(a, b);
    text::lines_of_joined_texts(a, blank);
    text::lines_of_joined_texts(a + seq!['\n'] + blank, b);
    text::lines_of_joined_texts(blank, s);
    text::lines_of_joined_texts(s, blank);
    text::lines_of_joined_texts(s, none);
    let inside = a + seq!['\n'] + blank + seq!['\n'] + b;
    let before = blank + seq!['\n'] + s;
    let behind = s + seq!['\n'] + blank;
    let ended = s + seq!['\n'];
    assert(ended + none =~= ended);
    assert(text::nonblank_lines(inside) =~= lines);
    assert(text::nonblank_lines(before) =~= lines);
    assert(text::nonblank_lines(behind) =~= lines);
    assert(text::nonblank_lines(ended) =~= lines);
    every_marked_line_becomes_a_sub_task(s);
    every_marked_line_becomes_a_sub_task(inside);
    every_marked_line_becomes_a_sub_task(before);
    every_marked_line_becomes_a_sub_task(behind);
    every_marked_line_becomes_a_sub_task(ended);
    lemma_same_entries(inside, s);
    lemma_same_entries(before, s);
    lemma_same_entries(behind, s);
    lemma_same_entries(ended, s);
}

proof fn lemma_same_entries(s: Seq<char>, t: Seq<char>)
    requires
        text::nonblank_lines(s) == text::nonblank_lines(t),
        decomposition(s).len() == text::nonblank_lines(s).len(),
        decomposition(t).len() == text::nonblank_lines(t).len(),
        forall|i: int|
            0 <= i < text::nonblank_lines(s).len() ==> Some(#[trigger] decomposition(s)[i])
                == without_marker(text::nonblank_lines(s)[i]),
        forall|i: int|
            0 <= i < text::nonblank_lines(t).len() ==> Some(#[trigger] decomposition(t)[i])
                == without_marker(text::nonblank_lines(t)[i]),
    ensures
        decomposition(s) == decomposition(t),
{
    assert forall|i: int| 0 <= i < decomposition(s).len() implies decomposition(s)[i]
        == decomposition(t)[i] by {
        assert(Some(decomposition(s)[i]) == Some(decomposition(t)[i]));
    }
    assert(decomposition(s) =~= decomposition(t));
}

/// A prompt with a line that carries no marker, or with one line only, is no list. It is
/// split into the questions that it joins, and goes through unchanged where it joins
/// none.
pub proof fn prompts_without_structure_go_through(s: Seq<char>)
    requires
        text::nonblank_lines(s).len() < 2 || exists|i: int|
            0 <= i < text::nonblank_lines(s).len() && without_marker(
                #[trigger] text::nonblank_lines(s)[i],
            ) is None,
    ensures
        list_entries(s) is None,
        joined_questions(s) is None ==> decomposition(s) == seq![s],
        joined_questions(s) matches Some((head, tail)) ==> decomposition(s) == seq![head, tail],
{
}

/// Lists come first: what is one is split by its lines, even where it holds an "also".
pub proof fn lists_come_before_questions(s: Seq<char>)
    ensures
        list_entries(s) matches Some(entries) ==> decomposition(s) == entries,
        list_entries(s) is Some ==> text::nonblank_lines(s).len() >= 2,
{
}

/// How a search goes: to the next occurrence of the word, which it returns where it is a
/// whole word and steps over otherwise; where there is none, it finds nothing.
pub proof fn search_goes_from_occurrence_to_occurrence(
    hay: Seq<u8>,
    word: Seq<u8>,
    start: int,
    next: int,
)
    requires
        word.len() > 0,
        0 <= start <= next,
        forall|j: int| start <= j < next ==> !#[trigger] text::occurs_at(hay, word, j),
    ensures
        text::occurs_at(hay, word, next) && whole_word_at(hay, word, next) ==> scan_word(
            hay,
            word,
            start,
        ) == Some(next),
        text::occurs_at(hay, word, next) && !whole_word_at(hay, word, next) ==> scan_word(
            hay,
            word,
            start,
        ) == scan_word(hay, word, next + word.len()),
        next >= hay.len() ==> scan_word(hay, word, start) is None,
    decreases next - start,
{
    if start < next {
        assert(!text::occurs_at(hay, word, start));
        if start + word.len() <= hay.len() {
            search_goes_from_occurrence_to_occurrence(hay, word, start + 1, next);
        }
    }
}

/// A word of ASCII letters and digits is found at its first occurrence as a whole word,
/// counted in bytes, if there is one.
pub proof fn words_are_found_at_their_first_occurrence(hay: Seq<char>, word: Seq<char>)
    requires
        encode_utf8(word).len() > 0,
        forall|i: int|
            0 <= i < encode_utf8(word).len() ==> is_alphanumeric(#[trigger] encode_utf8(word)[i]),
    ensures
        match word_offset(hay, word) {
            Some(at) => whole_word_at(encode_utf8(hay), encode_utf8(word), at) && forall|j: int|
                0 <= j < at ==> !#[trigger] whole_word_at(encode_utf8(hay), encode_utf8(word), j),
            None => forall|j: int| !#[trigger] whole_word_at(
                encode_utf8(hay),
                encode_utf8(word),
                j,
            ),
        },
{
    word_search_finds_the_first(encode_utf8(hay), encode_utf8(word));
}

/// A prompt that is not ASCII is not taken for joined questions.
pub proof fn joined_questions_are_ascii(s: Seq<char>)
    requires
        exists|i: int| 0 <= i < s.len() && (#[trigger] s[i]) as int > 0x7F,
    ensures
        joined_questions(s) is None,
{
}

/// Whether a byte is an ASCII letter or digit, by the characters.
pub proof fn letters_and_digits_are_alphanumeric(c: char)
    requires
        c as int <= 0x7F,
    ensures
        is_alphanumeric(c as u8) <==> '0' <= c <= '9' || 'A' <= c <= 'Z' || 'a' <= c <= 'z',
{
}

/// A whole word stands where the bytes before it and behind it, if there are any, are
/// no letters or digits.
pub proof fn whole_words_stand_apart(before: Seq<u8>, word: Seq<u8>, behind: Seq<u8>)
    ensures
        whole_word_at(before + word + behind, word, before.len() as int) <==> (before.len() == 0
            || !is_alphanumeric(before.last())) && (behind.len() == 0 || !is_alphanumeric(
            behind.first(),
        )),
{
    let hay = before + word + behind;
    let at = before.len() as int;
    assert(hay.subrange(at, at + word.len()) =~= word);
    if before.len() > 0 {
        assert(hay[at - 1] == before.last());
    }
    if behind.len() > 0 {
        assert(hay[at + word.len()] == behind.first());
    }
}

/// What may stand between a question and the word that joins another to it: commas
/// with whitespace around them, and an "and" before them that may follow commas too.
pub struct Gap {
    pub first_space: Seq<char>,
    pub first_commas: Seq<char>,
    pub conjunction: Seq<char>,
    pub second_space: Seq<char>,
    pub second_commas: Seq<char>,
    pub third_space: Seq<char>,
}

impl Gap {
    /// The gap.
    pub open spec fn text(self) -> Seq<char> {
        self.first_space + self.first_commas + self.conjunction + self.second_space
            + self.second_commas + self.third_space
    }

    /// Spaces are whitespace, commas are commas, and without a conjunction there is
    /// one run of commas only.
    pub open spec fn wf(self) -> bool {
        &&& text::all_whitespace(self.first_space)
        &&& text::is_run(self.first_commas, ',')
        &&& text::all_whitespace(self.second_space)
        &&& text::is_run(self.second_commas, ',')
        &&& text::all_whitespace(self.third_space)
        &&& {
            ||| self.conjunction == seq!['A', 'n', 'd']
            ||| self.conjunction == seq!['a', 'n', 'd']
            ||| self.conjunction.len() == 0 && self.first_space.len() == 0
                && self.first_commas.len() == 0
        }
    }
}

/// A question is cleaned of the whitespace before it and the gap behind it.
#[verifier::spinoff_prover]
pub proof fn question_is_cleaned_of_its_gap(before: Seq<char>, head: Seq<char>, gap: Gap)
    requires
        text::all_whitespace(before),
        head.len() > 0,
        !text::is_whitespace(head.first()),
        head.last() == '?',
        gap.wf(),
    ensures
        question_head(before + head + gap.text()) == head,
{
    reveal_strlit("And");
    reveal_strlit("and");
    assert("And"@ =~= seq!['A', 'n', 'd']);
    assert("and"@ =~= seq!['a', 'n', 'd']);
    let all = before + head + gap.text();
    let kept = head + gap.first_space + gap.first_commas + gap.conjunction;
    assert(kept.first() == head.first());
    assert(!text::is_whitespace(kept.last())) by {
        if gap.conjunction.len() > 0 {
            assert(kept.last() == 'd');
        } else {
            assert(kept =~= head);
        }
    }
    assert(kept.last() != ',');
    let tail = gap.second_space + gap.second_commas + gap.third_space;
    assert(all =~= before + (kept + tail));
    lemma_clean_end(kept, gap.second_space, gap.second_commas, gap.third_space);
    assert((kept + tail).first() == kept.first());
    text::lemma_trim_start_of(before, kept + tail);
    let cleaned = text::trim_end(text::trim_end_char(text::trim(all), ','));
    assert(cleaned == kept);
    if gap.conjunction.len() > 0 {
        let cut = head + gap.first_space + gap.first_commas;
        let n = kept.len() - 3;
        assert(kept.skip(n) =~= gap.conjunction);
        assert(kept.take(n) =~= cut);
        text::dropping_a_run_drops_all_of_it(gap.first_commas, head + gap.first_space, ',');
        assert((head + gap.first_space).last() != ',') by {
            if gap.first_space.len() > 0 {
                let i = gap.first_space.len() - 1;
                assert((head + gap.first_space).last() == gap.first_space[i]);
                assert(text::is_whitespace(gap.first_space[i]));
            } else {
                assert(head + gap.first_space =~= head);
            }
        }
        text::lemma_trim_end_of(head, gap.first_space);
    } else {
        assert(kept =~= head);
        if text::has_suffix(head, "And"@) || text::has_suffix(head, "and"@) {
            assert(head.skip(head.len() - 3)[2] == head.last());
        }
    }
}

/// Commas with whitespace around them come off an end.
proof fn lemma_clean_end(
    kept: Seq<char>,
    space: Seq<char>,
    commas: Seq<char>,
    last_space: Seq<char>,
)
    requires
        kept.len() > 0,
        !text::is_whitespace(kept.last()),
        kept.last() != ',',
        text::all_whitespace(space),
        text::is_run(commas, ','),
        text::all_whitespace(last_space),
    ensures
        text::trim_end(
            text::trim_end_char(
                text::trim_end(kept + (space + commas + last_space)),
                ',',
            ),
        ) == kept,
{
    let spaced = kept + space;
    let all = kept + (space + commas + last_space);
    if commas.len() == 0 {
        let ws = space + last_space;
        assert forall|i: int| 0 <= i < ws.len() implies text::is_whitespace(#[trigger] ws[i]) by {
            if i < space.len() {
                assert(ws[i] == space[i]);
            } else {
                assert(ws[i] == last_space[i - space.len()]);
            }
        }
        assert(all =~= kept + ws);
        text::lemma_trim_end_of(kept, ws);
    } else {
        let with_commas = spaced + commas;
        assert(with_commas.last() == commas[commas.len() - 1]);
        assert(all =~= with_commas + last_space);
        text::lemma_trim_end_of(with_commas, last_space);
        assert(spaced.last() != ',') by {
            if space.len() > 0 {
                assert(spaced.last() == space[space.len() - 1]);
                assert(text::is_whitespace(space[space.len() - 1]));
            } else {
                assert(spaced =~= kept);
            }
        }
        text::dropping_a_run_drops_all_of_it(commas, spaced, ',');
        text::lemma_trim_end_of(kept, space);
    }
}

/// What is cleaned to a question is whitespace, the question, and a gap.
#[verifier::spinoff_prover]
pub proof fn cleaning_takes_off_only_a_gap(s: Seq<char>)
    requires
        is_question(question_head(s)),
    ensures
        exists|before: Seq<char>, gap: Gap|
            {
                &&& s == #[trigger] (before + question_head(s) + gap.text())
                &&& text::all_whitespace(before)
                &&& gap.wf()
            },
{
    reveal_strlit("And");
    reveal_strlit("and");
    assert("And"@ =~= seq!['A', 'n', 'd']);
    assert("and"@ =~= seq!['a', 'n', 'd']);
    let none = Seq::<char>::empty();
    let before = text::lemma_trim_start_splits(s);
    let t = text::trim_start(s);
    let third_space = text::lemma_trim_end_splits(t);
    let u = text::trim(s);
    let second_commas = text::lemma_trim_end_char_splits(u, ',');
    let v = text::trim_end_char(u, ',');
    let second_space = text::lemma_trim_end_splits(v);
    let head = text::trim_end(v);
    assert(s =~= before + (head + second_space + second_commas + third_space));
    if text::has_suffix(head, "And"@) || text::has_suffix(head, "and"@) {
        let conjunction = head.skip(head.len() - 3);
        let cut = head.take(head.len() - 3);
        let first_commas = text::lemma_trim_end_char_splits(cut, ',');
        let w = text::trim_end_char(cut, ',');
        let first_space = text::lemma_trim_end_splits(w);
        let gap = Gap {
            first_space,
            first_commas,
            conjunction,
            second_space,
            second_commas,
            third_space,
        };
        assert(head =~= cut + conjunction);
        assert(conjunction == "And"@ || conjunction == "and"@);
        assert(s =~= before + question_head(s) + gap.text());
        assert(gap.wf());
    } else {
        let gap = Gap {
            first_space: none,
            first_commas: none,
            conjunction: none,
            second_space,
            second_commas,
            third_space,
        };
        assert(s =~= before + question_head(s) + gap.text());
        assert(gap.wf());
    }
}

/// A prompt is taken for joined questions exactly if it is ASCII, has a first whole
/// word "also", and there stand before it a question with its gap and behind it, past
/// commas and whitespace, a text that holds a question mark. It is split into these.
#[verifier::spinoff_prover]
pub proof fn questions_split_at_the_first_also(
    s: Seq<char>,
    at: int,
    before: Seq<char>,
    head: Seq<char>,
    gap: Gap,
    commas: Seq<char>,
    space: Seq<char>,
    tail: Seq<char>,
    end: Seq<char>,
)
    requires
        is_ascii_chars(s),
        whole_word_at(encode_utf8(text::lowered(s)), encode_utf8("also"@), at),
        forall|j: int|
            0 <= j < at ==> !#[trigger] whole_word_at(
                encode_utf8(text::lowered(s)),
                encode_utf8("also"@),
                j,
            ),
        s.take(at) == before + head + gap.text(),
        text::all_whitespace(before),
        head.len() > 0,
        !text::is_whitespace(head.first()),
        head.last() == '?',
        gap.wf(),
        s.skip(at + 4) == commas + (space + tail + end),
        text::is_run(commas, ','),
        text::all_whitespace(space),
        text::all_whitespace(end),
        tail.contains('?'),
        !text::is_whitespace(tail.first()),
        !text::is_whitespace(tail.last()),
        space.len() > 0 || tail.first() != ',',
    ensures
        joined_questions(s) == Some((head, tail)),
{
    reveal_strlit("also");
    let hay = encode_utf8(text::lowered(s));
    let word = encode_utf8("also"@);
    lemma_lowered_is_ascii(s);
    is_ascii_chars_encode_utf8(text::lowered(s));
    is_ascii_chars_encode_utf8("also"@);
    assert forall|i: int| 0 <= i < word.len() implies is_alphanumeric(#[trigger] word[i]) by {}
    word_search_finds_the_first(hay, word);
    assert(word_offset(text::lowered(s), "also"@) == Some(at));
    question_is_cleaned_of_its_gap(before, head, gap);
    let rest = space + tail + end;
    text::trimming_takes_off_the_outer_whitespace(space, tail, end);
    assert(rest.len() > 0 && rest.first() != ',') by {
        if space.len() > 0 {
            assert(rest.first() == space[0]);
            assert(text::is_whitespace(space[0]));
        } else {
            assert(rest.first() == tail.first());
        }
    }
    text::dropping_a_run_drops_all_of_it(commas, rest, ',');
    let left = s.take(at);
    let right = s.skip(at);
    assert(s =~= left + right);
    text::lemma_count_char_parts(left, right, '?');
    assert(left.contains('?')) by {
        assert(left[before.len() + head.len() - 1] == '?');
    }
    assert(right.contains('?')) by {
        let i = choose|i: int| 0 <= i < tail.len() && tail[i] == '?';
        let k = commas.len() + space.len() + i;
        assert((commas + (space + tail + end))[k as int] == '?');
        assert(s.skip(at + 4)[k as int] == s[at + 4 + k]);
        assert(right[4 + k] == '?');
    }
    text::lemma_count_char_contains(left, '?');
    text::lemma_count_char_contains(right, '?');
}

/// What comes of a split stands around the first whole word "also" of an ASCII prompt,
/// with nothing left out but whitespace, the gap, and commas.
#[verifier::spinoff_prover]
pub proof fn a_split_leaves_out_only_what_joins(s: Seq<char>) -> (r: (
    int,
    Seq<char>,
    Gap,
    Seq<char>,
    Seq<char>,
    Seq<char>,
))
    requires
        joined_questions(s) is Some,
    ensures
        ({
            let (head, tail) = joined_questions(s).unwrap();
            let (at, before, gap, commas, space, end) = r;
            &&& is_ascii_chars(s)
            &&& whole_word_at(encode_utf8(text::lowered(s)), encode_utf8("also"@), at)
            &&& forall|j: int|
                0 <= j < at ==> !#[trigger] whole_word_at(
                    encode_utf8(text::lowered(s)),
                    encode_utf8("also"@),
                    j,
                )
            &&& s.take(at) == before + head + gap.text()
            &&& text::all_whitespace(before)
            &&& head.len() > 0 && head.last() == '?'
            &&& gap.wf()
            &&& s.skip(at + 4) == commas + (space + tail + end)
            &&& text::is_run(commas, ',')
            &&& text::all_whitespace(space)
            &&& text::all_whitespace(end)
            &&& tail.contains('?')
        }),
{
    reveal_strlit("also");
    let hay = encode_utf8(text::lowered(s));
    let word = encode_utf8("also"@);
    lemma_lowered_is_ascii(s);
    is_ascii_chars_encode_utf8(text::lowered(s));
    is_ascii_chars_encode_utf8("also"@);
    assert forall|i: int| 0 <= i < word.len() implies is_alphanumeric(#[trigger] word[i]) by {}
    word_search_finds_the_first(hay, word);
    let at = word_offset(text::lowered(s), "also"@).unwrap();
    let (head, tail) = joined_questions(s).unwrap();
    cleaning_takes_off_only_a_gap(s.take(at));
    let (before, gap) = choose|before: Seq<char>, gap: Gap|
        {
            &&& s.take(at) == #[trigger] (before + head + gap.text())
            &&& text::all_whitespace(before)
            &&& gap.wf()
        };
    let rest = s.skip(at + 4);
    let commas = text::lemma_trim_start_char_splits(rest, ',');
    let t = text::trim_start_char(rest, ',');
    let space = text::lemma_trim_start_splits(t);
    let end = text::lemma_trim_end_splits(text::trim_start(t));
    assert(rest =~= commas + (space + tail + end));
    (at, before, gap, commas, space, end)
}

}

//! Persistent context memory: where the saved model state of a session lives.
//!
//! The state itself is an opaque file that the model runtime writes and reads.
//! This module only says, for each session and key, which file that is. An underscore
//! stands between the two, so where keys hold none a file has one session only.

use crate::text;
use vstd::prelude::*;
use vstd::string::*;

verus! {

/// The context memory of one session.
pub struct ContextMemory {
    session_id: String,
    storage_dir: String,
}

/// A file in a directory.
#[derive(Debug)]
pub struct FilePath {
    pub dir: String,
    pub file_name: String,
}

/// The file of `key` in a session.
pub open spec fn state_file(session_id: Seq<char>, key: Seq<char>) -> Seq<char> {
    session_id + "_"@ + key + ".llama-state"@
}

/// Whether `name` is the file of some key in a session.
pub open spec fn is_state_file_of(session_id: Seq<char>, name: Seq<char>) -> bool {
    exists|key: Seq<char>| #[trigger] state_file(session_id, key) == name
}

/// Whether `name` is the file of some key in some session.
pub open spec fn is_state_file(name: Seq<char>) -> bool {
    exists|session_id: Seq<char>| #[trigger] is_state_file_of(session_id, name)
}

/// Whether a file goes when a session is forgotten: its name starts with the
/// session's id, and it is not the state of other sessions only.
pub open spec fn goes_with(session_id: Seq<char>, name: Seq<char>) -> bool {
    &&& text::has_prefix(name, session_id)
    &&& is_state_file_of(session_id, name) || !is_state_file(name)
}

/// Tests whether `name` is the file of some key in a session.
fn belongs_to(session_id: &str, name: &str) -> (r: bool)
    ensures
        r == is_state_file_of(session_id@, name@),
{
    let start = text::concat2(session_id, "_");
    let ghost n = start@.len() as int;
    let ghost tail = ".llama-state"@;
    proof {
        if is_state_file_of(session_id@, name@) {
            let key = choose|key: Seq<char>| #[trigger] state_file(session_id@, key) == name@;
            assert(name@.take(n) =~= start@);
            assert(name@.skip(n) =~= key + tail);
            assert((key + tail).skip(key.len() as int) =~= tail);
        }
    }
    match text::str_strip_prefix(name, start.as_str()) {
        None => false,
        Some(rest) => match text::str_strip_suffix(rest, ".llama-state") {
            None => false,
            Some(key) => {
                proof {
                    assert(rest@ =~= key@ + tail);
                    assert(name@ =~= start@ + rest@);
                    assert(state_file(session_id@, key@) =~= name@);
                }
                true
            },
        },
    }
}

/// Tests whether `name` is the file of some key in some session.
fn names_state(name: &str) -> (r: bool)
    ensures
        r == is_state_file(name@),
{
    proof {
        reveal_strlit("_");
        if is_state_file(name@) {
            let session_id = choose|session_id: Seq<char>| #[trigger]
                is_state_file_of(session_id, name@);
            let key = choose|key: Seq<char>| #[trigger] state_file(session_id, key) == name@;
            let tail = ".llama-state"@;
            let at = name@.len() - tail.len();
            assert(name@.skip(at) =~= tail);
            assert(name@.take(at) =~= session_id + "_"@ + key);
            assert(name@.take(at)[session_id.len() as int] == '_');
        }
    }
    match text::str_strip_suffix(name, ".llama-state") {
        None => false,
        Some(rest) => {
            proof {
                text::lemma_count_char_contains(rest@, '_');
                if rest@.contains('_') {
                    let i = choose|i: int| 0 <= i < rest@.len() && rest@[i] == '_';
                    assert(state_file(rest@.take(i), rest@.skip(i + 1)) =~= name@);
                    assert(is_state_file_of(rest@.take(i), name@));
                }
            }
            text::str_count_char(rest, '_') > 0
        },
    }
}

impl ContextMemory {
    /// The session that this memory is for.
    pub closed spec fn session(&self) -> Seq<char> {
        self.session_id@
    }

    /// The directory that holds the files.
    pub closed spec fn dir(&self) -> Seq<char> {
        self.storage_dir@
    }

    /// The memory of a session, kept in `storage_dir`.
    pub fn new(session_id: &str, storage_dir: &str) -> (m: Self)
        ensures
            m.session() == session_id@,
            m.dir() == storage_dir@,
    {
        ContextMemory { session_id: session_id.to_string(), storage_dir: storage_dir.to_string() }
    }

    /// The file for a state key (an expert's or a critic's name) of this session.
    /// It may or may not exist yet.
    pub fn path(&self, key: &str) -> (p: FilePath)
        ensures
            p.dir@ == self.dir(),
            p.file_name@ == state_file(self.session(), key@),
    {
        let mut file_name = text::concat3(self.session_id.as_str(), "_", key);
        file_name.append(".llama-state");
        FilePath { dir: self.storage_dir.clone(), file_name }
    }

    /// The file to remove in order to forget `key`, given whether it exists.
    pub fn clear(&self, key: &str, exists: bool) -> (p: Option<FilePath>)
        ensures
            match p {
                Some(p) => {
                    &&& exists
                    &&& p.dir@ == self.dir()
                    &&& p.file_name@ == state_file(self.session(), key@)
                },
                None => !exists,
            },
    {
        if exists {
            Some(self.path(key))
        } else {
            None
        }
    }

    /// Which of the files in the directory to remove in order to forget the
    /// session: those whose name starts with its id, but for the state of other
    /// sessions.
    pub fn clear_all(&self, file_names: &[String]) -> (r: Vec<String>)
        ensures
            r@ == file_names@.filter(|n: String| goes_with(self.session(), n@)),
    {
        let ghost of_session = |n: String| goes_with(self.session(), n@);
        let n: usize = file_names.len();
        let mut r: Vec<String> = Vec::new();
        let mut i: usize = 0;
        assert(file_names@.take(0).filter(of_session) =~= Seq::<String>::empty()) by {
            reveal(Seq::filter);
        }
        while i < n
            invariant
                i <= n,
                n == file_names@.len(),
                of_session == (|n: String| goes_with(self.session(), n@)),
                r@ == file_names@.take(i as int).filter(of_session),
            decreases n - i,
        {
            proof {
                file_names@.take(i as int).lemma_filter_push(file_names@[i as int], of_session);
                assert(file_names@.take(i as int).push(file_names@[i as int])
                    =~= file_names@.take(i + 1));
            }
            let name = file_names[i].as_str();
            let id = self.session_id.as_str();
            if text::str_starts_with(name, id) && (belongs_to(id, name) || !names_state(name)) {
                r.push(file_names[i].clone());
            }
            i = i + 1;
        }
        assert(file_names@.take(n as int) =~= file_names@);
        r
    }
}

/// Sessions do not share state: under one key, different sessions have different
/// files.
pub proof fn sessions_are_isolated(a: Seq<char>, b: Seq<char>, key: Seq<char>)
    requires
        a != b,
    ensures
        state_file(a, key) != state_file(b, key),
{
    if state_file(a, key) == state_file(b, key) {
        let x = state_file(a, key);
        let y = state_file(b, key);
        assert(x.len() == a.len() + "_"@.len() + key.len() + ".llama-state"@.len());
        assert(y.len() == b.len() + "_"@.len() + key.len() + ".llama-state"@.len());
        assert(x.take(a.len() as int) =~= a);
        assert(y.take(b.len() as int) =~= b);
    }
}

/// Within a session, different keys have different files.
pub proof fn keys_are_separate(session_id: Seq<char>, a: Seq<char>, b: Seq<char>)
    requires
        a != b,
    ensures
        state_file(session_id, a) != state_file(session_id, b),
{
    if state_file(session_id, a) == state_file(session_id, b) {
        let x = state_file(session_id, a);
        let y = state_file(session_id, b);
        let from = (session_id + "_"@).len() as int;
        assert(x.len() == from + a.len() + ".llama-state"@.len());
        assert(y.len() == from + b.len() + ".llama-state"@.len());
        assert(x.subrange(from, from + a.len()) =~= a);
        assert(y.subrange(from, from + b.len()) =~= b);
    }
}

/// A file belongs to one session and one key only, whatever the session ids, where
/// keys hold no underscore (and whatever the keys, where session ids hold none).
pub proof fn state_files_are_unique(a: Seq<char>, ka: Seq<char>, b: Seq<char>, kb: Seq<char>)
    requires
        (!ka.contains('_') && !kb.contains('_')) || (!a.contains('_') && !b.contains('_')),
        state_file(a, ka) == state_file(b, kb),
    ensures
        a == b,
        ka == kb,
{
    reveal_strlit("_");
    reveal_strlit(".llama-state");
    let x = state_file(a, ka);
    let y = state_file(b, kb);
    let i = a.len() as int;
    let j = b.len() as int;
    assert(x.len() == i + 1 + ka.len() + 12);
    assert(y.len() == j + 1 + kb.len() + 12);
    assert(x[i] == '_');
    assert(y[j] == '_');
    if i < j {
        assert(y[i] == b[i]);
        assert(x[j] == '_');
        if j < i + 1 + ka.len() {
            assert(x[j] == ka[j - i - 1]);
        } else {
            assert(x[j] == ".llama-state"@[j - i - 1 - ka.len()]);
        }
    } else if j < i {
        assert(x[j] == a[j]);
        assert(y[i] == '_');
        if i < j + 1 + kb.len() {
            assert(y[i] == kb[i - j - 1]);
        } else {
            assert(y[i] == ".llama-state"@[i - j - 1 - kb.len()]);
        }
    }
    assert(x.take(i) =~= a);
    assert(y.take(j) =~= b);
    if ka != kb {
        keys_are_separate(a, ka, kb);
    }
}

/// Forgetting a session selects every file of it that is in the directory,
/// whatever its key.
pub proof fn clear_all_covers_every_key(
    session_id: Seq<char>,
    key: Seq<char>,
    file_names: Seq<String>,
    i: int,
)
    requires
        0 <= i < file_names.len(),
        file_names[i]@ == state_file(session_id, key),
    ensures
        file_names.filter(|n: String| goes_with(session_id, n@)).contains(file_names[i]),
{
    assert(state_file(session_id, key).take(session_id.len() as int) =~= session_id);
    assert(is_state_file_of(session_id, file_names[i]@));
    file_names.lemma_filter_contains(|n: String| goes_with(session_id, n@), i);
}

/// Forgetting a session selects no file of another one, where keys hold no
/// underscore and the other session's id does not start with this one's and an
/// underscore (its files are then named like files of this session).
pub proof fn clear_all_spares_other_sessions(
    session_id: Seq<char>,
    other: Seq<char>,
    key: Seq<char>,
    file_names: Seq<String>,
    name: String,
)
    requires
        other != session_id,
        !text::has_prefix(other, session_id + "_"@),
        !key.contains('_'),
        name@ == state_file(other, key),
    ensures
        !file_names.filter(|n: String| goes_with(session_id, n@)).contains(name),
{
    let goes = |n: String| goes_with(session_id, n@);
    if file_names.filter(goes).contains(name) {
        let chosen = file_names.filter(goes);
        let i = choose|i: int| 0 <= i < chosen.len() && chosen[i] == name;
        file_names.lemma_filter_pred(goes, i);
        assert(is_state_file_of(other, name@));
        let own = choose|own: Seq<char>| #[trigger] state_file(session_id, own) == name@;
        lemma_other_session_has_longer_id(session_id, own, other, key);
    }
}

/// A file of two sessions: where its key in one of them holds no underscore, the id of
/// that one goes on behind the other's with an underscore.
proof fn lemma_other_session_has_longer_id(
    a: Seq<char>,
    ka: Seq<char>,
    b: Seq<char>,
    kb: Seq<char>,
)
    requires
        a != b,
        !kb.contains('_'),
        state_file(a, ka) == state_file(b, kb),
    ensures
        text::has_prefix(b, a + "_"@),
{
    reveal_strlit("_");
    reveal_strlit(".llama-state");
    let x = state_file(a, ka);
    let y = state_file(b, kb);
    let i = a.len() as int;
    let j = b.len() as int;
    assert(x.len() == i + 1 + ka.len() + 12);
    assert(y.len() == j + 1 + kb.len() + 12);
    assert(x[i] == '_');
    if i < j {
        assert(b.take(i + 1) =~= y.take(i + 1));
        assert(x.take(i + 1) =~= a + "_"@);
    } else if j < i {
        if i < j + 1 + kb.len() {
            assert(y[i] == kb[i - j - 1]);
        } else {
            assert(y[i] == ".llama-state"@[i - j - 1 - kb.len()]);
        }
    } else {
        assert(x.take(i) =~= a);
        assert(y.take(j) =~= b);
    }
}

/// A state file is named by its session and its key, with an underscore between them.
pub proof fn state_files_are_named_by_session_and_key(session_id: Seq<char>, key: Seq<char>)
    ensures
        state_file(session_id, key) == session_id + "_"@ + key + ".llama-state"@,
{
}

/// Which files go with a session: those whose name starts with its id, unless they are
/// named as the state of other sessions and not as its own.
pub proof fn files_go_with_their_session(session_id: Seq<char>, rest: Seq<char>)
    ensures
        ({
            let name = session_id + rest;
            let own = exists|key: Seq<char>|
                name == #[trigger] (session_id + "_"@ + key + ".llama-state"@);
            let some = exists|other: Seq<char>, key: Seq<char>|
                name == #[trigger] (other + "_"@ + key + ".llama-state"@);
            goes_with(session_id, name) <==> own || !some
        }),
        forall|name: Seq<char>| #[trigger]
            goes_with(session_id, name) ==> exists|b: Seq<char>| name == #[trigger] (session_id + b),
{
    let name = session_id + rest;
    text::parts_are_what_stands_between(name, session_id);
    if is_state_file_of(session_id, name) {
        let key = choose|key: Seq<char>| #[trigger] state_file(session_id, key) == name;
        assert(name == session_id + "_"@ + key + ".llama-state"@);
    }
    if exists|key: Seq<char>| name == #[trigger] (session_id + "_"@ + key + ".llama-state"@) {
        let key = choose|key: Seq<char>|
            name == #[trigger] (session_id + "_"@ + key + ".llama-state"@);
        assert(state_file(session_id, key) == name);
    }
    if is_state_file(name) {
        let other = choose|other: Seq<char>| #[trigger] is_state_file_of(other, name);
        let key = choose|key: Seq<char>| #[trigger] state_file(other, key) == name;
        assert(name == other + "_"@ + key + ".llama-state"@);
    }
    if exists|other: Seq<char>, key: Seq<char>|
        name == #[trigger] (other + "_"@ + key + ".llama-state"@) {
        let (other, key) = choose|other: Seq<char>, key: Seq<char>|
            name == #[trigger] (other + "_"@ + key + ".llama-state"@);
        assert(state_file(other, key) == name);
        assert(is_state_file_of(other, name));
    }
    assert forall|n: Seq<char>| #[trigger] goes_with(session_id, n) implies exists|b: Seq<char>|
        n == #[trigger] (session_id + b) by {
        text::parts_are_what_stands_between(n, session_id);
    }
}

}

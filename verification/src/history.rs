use std::string::FromUtf8Error;
use std::time::{Duration, Instant};

use base64::engine::general_purpose::URL_SAFE;
use base64::DecodeError;
use base64::Engine;
use vstd::prelude::*;
use vstd::utf8::{decode_utf8, encode_utf8, valid_utf8};

use crate::event::Outcome;
use crate::paths::{path_join, path_push};
use crate::rush::Rush;
use crate::text::str_eq;

verus! {

/// One command remembered for a directory.
#[derive(PartialEq, Eq)]
pub struct HistoryEntry {
    pub cmd: String,
    pub last_run: u64,
    pub pass_count: u32,
    pub fail_count: u32,
}

impl Clone for HistoryEntry {
    fn clone(&self) -> (r: HistoryEntry)
        ensures
            r == *self,
    {
        HistoryEntry {
            cmd: self.cmd.clone(),
            last_run: self.last_run,
            pass_count: self.pass_count,
            fail_count: self.fail_count,
        }
    }
}

/// The history of every directory, keyed by the directory's path; no path occurs twice.
pub struct HistoryMap {
    dirs: Vec<(String, Vec<HistoryEntry>)>,
}

/// `path` is stored at position `i`.
pub open spec fn holds_at(dirs: Seq<(String, Vec<HistoryEntry>)>, path: Seq<char>, i: int) -> bool {
    0 <= i < dirs.len() && dirs[i].0@ == path
}

impl HistoryMap {
    #[verifier::type_invariant]
    spec fn paths_distinct(self) -> bool {
        forall|i: int, j: int|
            0 <= i < self.dirs@.len() && 0 <= j < self.dirs@.len() && i != j ==> self.dirs@[i].0@
                != self.dirs@[j].0@
    }
}

impl View for HistoryMap {
    type V = Map<Seq<char>, Seq<HistoryEntry>>;

    closed spec fn view(&self) -> Map<Seq<char>, Seq<HistoryEntry>> {
        Map::new(
            |p: Seq<char>| exists|i: int| holds_at(self.dirs@, p, i),
            |p: Seq<char>| self.dirs@[choose|i: int| holds_at(self.dirs@, p, i)].1@,
        )
    }
}

impl HistoryMap {
    /// The history of no directory.
    pub fn new() -> (m: HistoryMap)
        ensures
            m@ == Map::<Seq<char>, Seq<HistoryEntry>>::empty(),
    {
        let m = HistoryMap { dirs: Vec::new() };
        proof {
            assert(m@ =~= Map::<Seq<char>, Seq<HistoryEntry>>::empty());
        }
        m
    }

    /// Where `path` is stored.
    fn find(&self, path: &str) -> (r: Option<usize>)
        ensures
            r matches Some(i) ==> holds_at(self.dirs@, path@, i as int),
            r is None ==> forall|i: int| !holds_at(self.dirs@, path@, i),
    {
        let mut i: usize = 0;
        while i < self.dirs.len()
            invariant
                i <= self.dirs@.len(),
                forall|j: int| 0 <= j < i ==> !holds_at(self.dirs@, path@, j),
            decreases self.dirs.len() - i,
        {
            if str_eq(self.dirs[i].0.as_str(), path) {
                return Some(i);
            }
            i = i + 1;
        }
        None
    }

    /// The stored history of `path`.
    pub fn get(&self, path: &str) -> (r: Option<&Vec<HistoryEntry>>)
        ensures
            r is Some <==> self@.contains_key(path@),
            r matches Some(v) ==> v@ == self@[path@],
    {
        proof {
            use_type_invariant(self);
        }
        match self.find(path) {
            Some(i) => {
                proof {
                    self.lemma_view_at(path@, i as int);
                }
                Some(&self.dirs[i].1)
            },
            None => None,
        }
    }

    proof fn lemma_view_at(&self, path: Seq<char>, i: int)
        requires
            self.paths_distinct(),
            holds_at(self.dirs@, path, i),
        ensures
            self@.contains_key(path),
            self@[path] == self.dirs@[i].1@,
    {
        let k = choose|k: int| holds_at(self.dirs@, path, k);
        assert(holds_at(self.dirs@, path, k));
        assert(k == i);
    }

    /// Stores `entries` as the history of `path`, replacing what was there.
    pub fn insert(&mut self, path: String, entries: Vec<HistoryEntry>)
        ensures
            final(self)@ == old(self)@.insert(path@, entries@),
    {
        proof {
            use_type_invariant(&*self);
        }
        let ghost p = path@;
        let ghost e = entries@;
        let ghost before = self.dirs@;
        let ghost mut pos: int = 0;
        let found = self.find(path.as_str());
        let mut dirs: Vec<(String, Vec<HistoryEntry>)> = Vec::new();
        std::mem::swap(&mut dirs, &mut self.dirs);
        match found {
            Some(i) => {
                dirs.set(i, (path, entries));
                proof {
                    pos = i as int;
                }
            },
            None => {
                dirs.push((path, entries));
                proof {
                    pos = before.len() as int;
                }
            },
        }
        proof {
            assert(dirs@[pos].0@ == p);
            assert forall|a: int, b: int|
                0 <= a < dirs@.len() && 0 <= b < dirs@.len() && a != b implies dirs@[a].0@
                    != dirs@[b].0@ by {
                if a != pos && b != pos {
                    assert(dirs@[a] == before[a]);
                    assert(dirs@[b] == before[b]);
                } else if a == pos {
                    assert(dirs@[b] == before[b]);
                    match found {
                        Some(i) => { assert(holds_at(before, p, i as int)); },
                        None => { assert(!holds_at(before, p, b)); },
                    }
                } else {
                    assert(dirs@[a] == before[a]);
                    match found {
                        Some(i) => { assert(holds_at(before, p, i as int)); },
                        None => { assert(!holds_at(before, p, a)); },
                    }
                }
            }
        }
        self.dirs = dirs;
        proof {
            assert(self.paths_distinct());
            assert forall|q: Seq<char>| #[trigger] self@.contains_key(q) == old(self)@.insert(p, e).contains_key(q) by {
                if q == p {
                    assert(holds_at(self.dirs@, p, pos));
                } else {
                    if exists|k: int| holds_at(before, q, k) {
                        let k = choose|k: int| holds_at(before, q, k);
                        assert(holds_at(self.dirs@, q, k));
                    }
                    if exists|k: int| holds_at(self.dirs@, q, k) {
                        let k = choose|k: int| holds_at(self.dirs@, q, k);
                        assert(holds_at(before, q, k));
                    }
                }
            }
            assert forall|q: Seq<char>| #[trigger] self@.contains_key(q) implies self@[q] == old(self)@.insert(p, e)[q] by {
                let k = self.lemma_index_of(q);
                self.lemma_view_at(q, k);
                if q != p {
                    assert(holds_at(before, q, k));
                    old(self).lemma_view_at(q, k);
                }
            }
            assert(self@ =~= old(self)@.insert(p, e));
        }
    }

    proof fn lemma_index_of(&self, path: Seq<char>) -> (k: int)
        requires
            self@.contains_key(path),
        ensures
            holds_at(self.dirs@, path, k),
    {
        choose|k: int| holds_at(self.dirs@, path, k)
    }

    /// Takes out the history of `path`, if any.
    pub fn remove(&mut self, path: &str) -> (r: Option<Vec<HistoryEntry>>)
        ensures
            final(self)@ == old(self)@.remove(path@),
            r is Some <==> old(self)@.contains_key(path@),
            r matches Some(v) ==> v@ == old(self)@[path@],
    {
        proof {
            use_type_invariant(&*self);
        }
        let ghost before = self.dirs@;
        match self.find(path) {
            Some(i) => {
                proof {
                    self.lemma_view_at(path@, i as int);
                }
                let mut dirs: Vec<(String, Vec<HistoryEntry>)> = Vec::new();
                std::mem::swap(&mut dirs, &mut self.dirs);
                let (_, entries) = dirs.remove(i);
                proof {
                    assert forall|a: int, b: int|
                        0 <= a < dirs@.len() && 0 <= b < dirs@.len() && a != b implies dirs@[a].0@
                            != dirs@[b].0@ by {
                        let a0 = if a < i { a } else { a + 1 };
                        let b0 = if b < i { b } else { b + 1 };
                        assert(dirs@[a] == before[a0]);
                        assert(dirs@[b] == before[b0]);
                    }
                }
                self.dirs = dirs;
                proof {
                    assert forall|a: int, b: int|
                        0 <= a < self.dirs@.len() && 0 <= b < self.dirs@.len() && a != b implies self.dirs@[a].0@
                            != self.dirs@[b].0@ by {
                        let a0 = if a < i { a } else { a + 1 };
                        let b0 = if b < i { b } else { b + 1 };
                        assert(self.dirs@[a] == before[a0]);
                        assert(self.dirs@[b] == before[b0]);
                    }
                    assert(self.paths_distinct());
                    assert forall|q: Seq<char>| #[trigger] self@.contains_key(q) == old(self)@.remove(path@).contains_key(q) by {
                        if exists|k: int| holds_at(self.dirs@, q, k) {
                            let k = choose|k: int| holds_at(self.dirs@, q, k);
                            let k0 = if k < i { k } else { k + 1 };
                            assert(holds_at(before, q, k0));
                            assert(q != path@);
                        }
                        if q != path@ && exists|k: int| holds_at(before, q, k) {
                            let k = choose|k: int| holds_at(before, q, k);
                            assert(k != i);
                            let k1 = if k < i { k } else { k - 1 };
                            assert(holds_at(self.dirs@, q, k1));
                        }
                    }
                    assert forall|q: Seq<char>| #[trigger] self@.contains_key(q) implies self@[q] == old(self)@.remove(path@)[q] by {
                        let k = self.lemma_index_of(q);
                        self.lemma_view_at(q, k);
                        let k0 = if k < i { k } else { k + 1 };
                        assert(holds_at(before, q, k0));
                        old(self).lemma_view_at(q, k0);
                    }
                    assert(self@ =~= old(self)@.remove(path@));
                }
                Some(entries)
            },
            None => {
                proof {
                    assert(!old(self)@.contains_key(path@));
                    assert(self@ =~= old(self)@.remove(path@));
                }
                None
            },
        }
    }
}

/// The history of every directory, and which entry of the current directory's
/// history the prompt shows, if any.
pub struct History {
    pub entries: HistoryMap,
    pub idx: Option<usize>,
}

impl Default for History {
    fn default() -> (h: History)
        ensures
            h.entries@ == Map::<Seq<char>, Seq<HistoryEntry>>::empty(),
            h.idx is None,
    {
        History { entries: HistoryMap::new(), idx: None }
    }
}

/// What the history worker reports from disk.
pub enum HistoryDataActions {
    /// The history stored for a directory.
    UpdateEntries(String, Vec<HistoryEntry>),
}

/// The text that the `base64` crate's URL-safe engine with padding (`URL_SAFE`) makes
/// of `bytes`.
pub uninterp spec fn url_safe_base64(bytes: Seq<u8>) -> Seq<char>;

/// The length of the padded Base64 text of `n` bytes fits in `usize`: four characters
/// for every started group of three bytes.
pub open spec fn encoded_len_fits(n: nat) -> bool {
    (n / 3) * 4 + (if n % 3 == 0 {
        0int
    } else {
        4int
    }) <= usize::MAX
}

/// `base64::engine::general_purpose::URL_SAFE.encode`: the result is the URL-safe,
/// padded Base64 text of the input. The crate panics where the output's length does not
/// fit in `usize`, which the length bound excludes.
#[verifier::external_body]
fn url_safe_encode(bytes: &[u8]) -> (r: String)
    requires
        encoded_len_fits(bytes@.len()),
    ensures
        r@ == url_safe_base64(bytes@),
{
    URL_SAFE.encode(bytes)
}

/// `base64::DecodeError`, the error of a failed decode; the library never looks inside.
#[verifier::external_type_specification]
#[verifier::external_body]
pub struct ExDecodeError(DecodeError);

/// `base64::engine::general_purpose::URL_SAFE.decode`. The engine requires canonical
/// padding and rejects trailing bits, so it accepts exactly the UTF-8 bytes of texts
/// that `URL_SAFE.encode` produces, and gives back the bytes they encode. Which error it
/// reports otherwise is not stated.
#[verifier::external_body]
fn url_safe_decode(text: &[u8]) -> (r: Result<Vec<u8>, DecodeError>)
    ensures
        r matches Ok(v) ==> encode_utf8(url_safe_base64(v@)) == text@,
        forall|b: Seq<u8>| #[trigger] encode_utf8(url_safe_base64(b)) == text@ ==> r is Ok && r->Ok_0@ == b,
{
    URL_SAFE.decode(text)
}

/// `std::string::FromUtf8Error`, the error of `String::from_utf8`; the library never
/// looks inside.
#[verifier::external_type_specification]
#[verifier::external_body]
pub struct ExFromUtf8Error(FromUtf8Error);

/// `String::from_utf8` accepts exactly the valid UTF-8 byte sequences and gives the
/// string they encode.
pub assume_specification[ String::from_utf8 ](vec: Vec<u8>) -> (r: Result<String, FromUtf8Error>)
    ensures
        r is Ok <==> valid_utf8(vec@),
        r matches Ok(s) ==> s@ == decode_utf8(vec@),
;

/// `std::time::Instant`, carried from `Instant::now` to `Instant::elapsed`.
#[verifier::external_type_specification]
#[verifier::external_body]
pub struct ExInstant(Instant);

/// `Instant::now`; nothing is stated of the instant.
#[verifier::external_body]
fn instant_now() -> Instant {
    Instant::now()
}

/// `Instant::elapsed`; nothing is stated of the duration.
#[verifier::external_body]
fn instant_elapsed(i: &Instant) -> Duration {
    i.elapsed()
}

/// `Duration::as_millis`; nothing is stated of the count.
#[verifier::external_body]
fn duration_as_millis(d: &Duration) -> u128 {
    d.as_millis()
}

/// The name of the file that holds the history of directory `path`.
pub open spec fn history_file_name_of(path: Seq<char>) -> Seq<char> {
    url_safe_base64(encode_utf8(path))
}

/// The name of the file that holds the history of directory `path`: its URL-safe
/// Base64 text.
pub fn history_file_name(path: &str) -> (r: String)
    requires
        encoded_len_fits(encode_utf8(path@).len()),
    ensures
        r@ == history_file_name_of(path@),
{
    url_safe_encode(path.as_bytes())
}

/// The directory whose history the file `name` holds; `None` when `name` is not the
/// file name of any directory.
pub fn history_path_from_file_name(name: &str) -> (r: Option<String>)
    ensures
        r matches Some(p) ==> history_file_name_of(p@) == name@,
        forall|p: Seq<char>| #[trigger] history_file_name_of(p) == name@ ==> (r matches Some(q) && q@ == p),
{
    let bytes = name.as_bytes();
    match url_safe_decode(bytes) {
        Ok(v) => {
            let ghost b = v@;
            match String::from_utf8(v) {
                Ok(s) => {
                    proof {
                        vstd::utf8::decode_utf8_encode_utf8(b);
                        assert(encode_utf8(url_safe_base64(encode_utf8(s@))) == encode_utf8(name@));
                        crate::text::lemma_encode_utf8_injective(url_safe_base64(encode_utf8(s@)), name@);
                        assert forall|p: Seq<char>| #[trigger] history_file_name_of(p) == name@ implies s@ == p by {
                            assert(encode_utf8(url_safe_base64(encode_utf8(p))) == bytes@);
                            vstd::utf8::encode_utf8_decode_utf8(p);
                        }
                    }
                    Some(s)
                },
                Err(_) => {
                    proof {
                        assert forall|p: Seq<char>| #[trigger] history_file_name_of(p) == name@ implies false by {
                            assert(encode_utf8(url_safe_base64(encode_utf8(p))) == bytes@);
                            vstd::utf8::encode_utf8_valid_utf8(p);
                        }
                    }
                    None
                },
            }
        },
        Err(_) => {
            proof {
                assert forall|p: Seq<char>| #[trigger] history_file_name_of(p) == name@ implies false by {
                    assert(encode_utf8(url_safe_base64(encode_utf8(p))) == bytes@);
                }
            }
            None
        },
    }
}

/// The directory in which the shell keeps one history file per directory.
pub const HISTORY_DIR: &'static str = "/Users/parth/.rush/history";

/// `i` is the first position of `entries` whose command is `cmd`.
pub open spec fn first_match(entries: Seq<HistoryEntry>, cmd: Seq<char>, i: int) -> bool {
    &&& 0 <= i < entries.len()
    &&& entries[i].cmd@ == cmd
    &&& forall|j: int| 0 <= j < i ==> entries[j].cmd@ != cmd
}

/// A directory's history after `cmd` was run at time `now`: the first entry for `cmd`
/// counts one more pass and takes the new time; without one, a new entry is appended.
pub open spec fn recorded(entries: Seq<HistoryEntry>, cmd: String, now: u64) -> Seq<HistoryEntry> {
    if exists|i: int| first_match(entries, cmd@, i) {
        let i = choose|i: int| first_match(entries, cmd@, i);
        let e = entries[i];
        entries.update(
            i,
            HistoryEntry {
                cmd: e.cmd,
                last_run: now,
                pass_count: (e.pass_count + 1) as u32,
                fail_count: e.fail_count,
            },
        )
    } else {
        entries.push(HistoryEntry { cmd, last_run: now, pass_count: 1, fail_count: 0 })
    }
}

/// Recording `cmd` does not make a pass count overflow.
pub open spec fn can_record(entries: Seq<HistoryEntry>, cmd: Seq<char>) -> bool {
    forall|i: int| first_match(entries, cmd, i) ==> entries[i].pass_count < u32::MAX
}

/// No command occurs twice in a directory's history.
pub open spec fn commands_distinct(entries: Seq<HistoryEntry>) -> bool {
    forall|i: int, j: int|
        0 <= i < entries.len() && 0 <= j < entries.len() && i != j ==> entries[i].cmd@
            != entries[j].cmd@
}

/// The index the prompt shows after stepping back through a history of `len` entries.
pub open spec fn prev_index(idx: Option<usize>, len: nat) -> int {
    match idx {
        Some(i) => if i > 0 {
            i - 1
        } else {
            0
        },
        None => len - 1,
    }
}

/// The index the prompt shows after stepping forward from `i` through a history of
/// `len` entries: past the newest entry, none.
pub open spec fn next_index(i: usize, len: nat) -> Option<usize> {
    if i == len - 1 {
        None
    } else {
        Some((i + 1) as usize)
    }
}

/// Stepping back does not leave the current directory's history.
pub open spec fn hist_prev_ok(pre: Rush) -> bool {
    pre.dir_history().len() > 0 ==> prev_index(pre.history.idx, pre.dir_history().len())
        < pre.dir_history().len()
}

/// `post` is `pre` after stepping back through the current directory's history: with no
/// history nothing changes; otherwise the prompt shows the previous entry (the newest one
/// when none was shown) and the cursor's columns are forgotten.
pub open spec fn hist_prev_post(pre: Rush, post: Rush) -> bool {
    &&& pre.dir_history().len() == 0 ==> post == pre
    &&& pre.dir_history().len() > 0 ==> {
        let i = prev_index(pre.history.idx, pre.dir_history().len());
        &&& post.history.idx == Some(i as usize)
        &&& post.parser.input == pre.dir_history()[i].cmd
        &&& post.cursor.is_cleared()
    }
    &&& post.history.entries == pre.history.entries
    &&& post.parser.execute == pre.parser.execute
    &&& post.parser.output == pre.parser.output
    &&& post.only_cursor_parser_and_history_changed(pre)
}

/// Stepping forward does not leave the current directory's history.
pub open spec fn hist_next_ok(pre: Rush) -> bool {
    pre.history.idx matches Some(i) ==> (pre.dir_history().len() > 0 ==> i < pre.dir_history().len())
}

/// `post` is `pre` after stepping forward through the current directory's history: with
/// no history, or no entry shown, nothing changes; from the newest entry the prompt is
/// emptied; otherwise it shows the next entry. The cursor's columns are forgotten.
pub open spec fn hist_next_post(pre: Rush, post: Rush) -> bool {
    &&& (pre.dir_history().len() == 0 || pre.history.idx is None) ==> post == pre
    &&& pre.dir_history().len() > 0 ==> (pre.history.idx matches Some(i) ==> {
        let n = next_index(i, pre.dir_history().len());
        &&& post.history.idx == n
        &&& n matches Some(j) ==> post.parser.input == pre.dir_history()[j as int].cmd
        &&& n is None ==> post.parser.input@ == Seq::<char>::empty()
        &&& post.cursor.is_cleared()
    })
    &&& post.history.entries == pre.history.entries
    &&& post.parser.execute == pre.parser.execute
    &&& post.parser.output == pre.parser.output
    &&& post.only_cursor_parser_and_history_changed(pre)
}

/// `post`'s history is `pre`'s with the current input recorded for the working
/// directory, as run at some time, and no entry shown.
pub open spec fn input_recorded(pre: Rush, post: Rush) -> bool {
    &&& post.history.idx is None
    &&& exists|now: u64|
        post.history.entries@ == pre.history.entries@.insert(
            pre.pwd@,
            #[trigger] recorded(pre.dir_history(), pre.parser.input, now),
        )
}

/// `post` and `r` are `pre` with the suggestion numbered `n` (from 0) in the prompt and
/// the cursor's columns forgotten, and the request to run the line.
pub open spec fn do_hist_post(pre: Rush, post: Rush, n: u8, r: Outcome) -> bool {
    &&& r == Outcome::Execute
    &&& post.parser.input == pre.suggest.suggestions@[n as int]
    &&& post.cursor.is_cleared()
    &&& post.parser.execute == pre.parser.execute
    &&& post.parser.output == pre.parser.output
    &&& post.history == pre.history
    &&& post.only_cursor_and_parser_changed(pre)
}

impl Rush {
    /// The history of the current directory (empty where none is stored).
    pub open spec fn dir_history(&self) -> Seq<HistoryEntry> {
        if self.history.entries@.contains_key(self.pwd@) {
            self.history.entries@[self.pwd@]
        } else {
            seq![]
        }
    }

    /// The number of entries in the current directory's history.
    pub fn dir_history_len(&self) -> (n: usize)
        ensures
            n == self.dir_history().len(),
    {
        match self.history.entries.get(self.pwd.as_str()) {
            Some(e) => e.len(),
            None => 0,
        }
    }

    /// Whether the current input can be recorded in the current directory's history: its
    /// entry's pass count does not overflow, and the directory's file name can be made.
    pub fn can_add_input(&self) -> (ok: bool)
        ensures
            ok == (can_record(self.dir_history(), self.parser.input@) && encoded_len_fits(
                encode_utf8(self.pwd@).len(),
            )),
    {
        let n = self.pwd.as_str().as_bytes().len();
        let groups = n / 3;
        if groups > usize::MAX / 4 {
            return false;
        }
        if n % 3 != 0 && groups * 4 > usize::MAX - 4 {
            return false;
        }
        let empty: Vec<HistoryEntry> = Vec::new();
        let entries = match self.history.entries.get(self.pwd.as_str()) {
            Some(e) => e,
            None => &empty,
        };
        let mut i: usize = 0;
        while i < entries.len()
            invariant
                entries@ == self.dir_history(),
                encoded_len_fits(encode_utf8(self.pwd@).len()),
                i <= entries@.len(),
                forall|j: int| 0 <= j < i ==> entries@[j].cmd@ != self.parser.input@,
            decreases entries.len() - i,
        {
            if str_eq(entries[i].cmd.as_str(), self.parser.input.as_str()) {
                proof {
                    assert(first_match(entries@, self.parser.input@, i as int));
                    assert forall|k: int| first_match(entries@, self.parser.input@, k) implies k == i by {
                        if k > i {
                            assert(entries@[i as int].cmd@ == self.parser.input@);
                        }
                    }
                }
                return entries[i].pass_count < u32::MAX;
            }
            i = i + 1;
        }
        true
    }

    /// Whether stepping back stays in the current directory's history.
    pub fn can_hist_prev(&self) -> (ok: bool)
        ensures
            ok == hist_prev_ok(*self),
    {
        let len = self.dir_history_len();
        if len == 0 {
            return true;
        }
        match self.history.idx {
            Some(i) => i == 0 || i - 1 < len,
            None => true,
        }
    }

    /// Whether stepping forward stays in the current directory's history.
    pub fn can_hist_next(&self) -> (ok: bool)
        ensures
            ok == hist_next_ok(*self),
    {
        let len = self.dir_history_len();
        match self.history.idx {
            Some(i) => len == 0 || i < len,
            None => true,
        }
    }

    /// Steps back through the current directory's history and puts that entry in the
    /// prompt.
    pub fn hist_prev(&mut self)
        requires
            hist_prev_ok(*old(self)),
        ensures
            hist_prev_post(*old(self), *final(self)),
    {
        let empty: Vec<HistoryEntry> = Vec::new();
        let entries = match self.history.entries.get(self.pwd.as_str()) {
            Some(e) => e,
            None => &empty,
        };
        if entries.len() == 0 {
            return;
        }
        match self.history.idx {
            Some(idx) => {
                self.history.idx = Some(idx.saturating_sub(1));
            },
            None => {
                self.history.idx = Some(entries.len() - 1);
            },
        }
        let i = self.history.idx.unwrap();
        self.parser.input = entries[i].cmd.clone();
        self.cursor.clear();
    }

    /// Steps forward through the current directory's history; past the newest entry the
    /// prompt is emptied.
    pub fn hist_next(&mut self)
        requires
            hist_next_ok(*old(self)),
        ensures
            hist_next_post(*old(self), *final(self)),
    {
        let empty: Vec<HistoryEntry> = Vec::new();
        let entries = match self.history.entries.get(self.pwd.as_str()) {
            Some(e) => e,
            None => &empty,
        };
        if entries.len() == 0 {
            return;
        }
        match self.history.idx {
            Some(idx) => {
                if idx == entries.len() - 1 {
                    self.history.idx = None;
                } else {
                    self.history.idx = Some(idx + 1);
                }
            },
            None => return,
        }
        match self.history.idx {
            Some(idx) => {
                self.parser.input = entries[idx].cmd.clone();
            },
            None => self.parser.input = String::new(),
        }
        self.cursor.clear();
    }

    /// Picks the suggestion numbered `n` (from 0) as the line to run: puts it in the
    /// prompt, forgets the cursor's columns, and asks the caller to run the line
    /// (`Outcome::Execute`).
    pub fn do_hist(&mut self, n: u8) -> (r: Outcome)
        requires
            (n as int) < old(self).suggest.suggestions@.len(),
        ensures
            do_hist_post(*old(self), *final(self), n, r),
    {
        self.parser.input = self.suggest.suggestions[n as usize].clone();
        self.cursor.clear();
        Outcome::Execute
    }

    /// Takes in a history update read from disk.
    pub fn apply_history_action(&mut self, action: HistoryDataActions)
        ensures
            match action {
                HistoryDataActions::UpdateEntries(path, entries) => final(self).history.entries@
                    == old(self).history.entries@.insert(path@, entries@),
            },
            final(self).history.idx == old(self).history.idx,
            final(self).parser == old(self).parser,
            final(self).cursor == old(self).cursor,
            final(self).only_cursor_parser_and_history_changed(*old(self)),
    {
        match action {
            HistoryDataActions::UpdateEntries(path, entries) => {
                self.history.entries.insert(path, entries);
            },
        }
    }

    /// Records the current input in the current directory's history, as run at time
    /// `now`, and gives the path of the file to which that history is to be written.
    pub fn hist_add_input_at(&mut self, now: u64) -> (path: String)
        requires
            can_record(old(self).dir_history(), old(self).parser.input@),
            encoded_len_fits(encode_utf8(old(self).pwd@).len()),
        ensures
            final(self).history.idx is None,
            final(self).history.entries@ == old(self).history.entries@.insert(
                old(self).pwd@,
                recorded(old(self).dir_history(), old(self).parser.input, now),
            ),
            path@ == path_join(HISTORY_DIR@, history_file_name_of(old(self).pwd@)),
            final(self).parser == old(self).parser,
            final(self).cursor == old(self).cursor,
            final(self).only_cursor_parser_and_history_changed(*old(self)),
    {
        self.history.idx = None;
        let cmd = self.parser.input.clone();
        let pwd = self.pwd.clone();
        let ghost entries0 = self.dir_history();
        let mut entry = match self.history.entries.remove(pwd.as_str()) {
            Some(v) => v,
            None => Vec::new(),
        };
        proof {
            assert(entry@ == entries0);
        }
        let key = history_file_name(pwd.as_str());
        let mut added = false;
        let mut i: usize = 0;
        while i < entry.len()
            invariant_except_break
                !added,
                entry@ == entries0,
                forall|j: int| 0 <= j < i ==> entries0[j].cmd@ != cmd@,
            invariant
                entries0 == old(self).dir_history(),
                cmd@ == old(self).parser.input@,
                cmd == old(self).parser.input,
                can_record(entries0, cmd@),
                i <= entry@.len(),
            ensures
                !added ==> entry@ == entries0,
                !added ==> forall|j: int| 0 <= j < entries0.len() ==> entries0[j].cmd@ != cmd@,
                added ==> entry@ == recorded(entries0, cmd, now),
            decreases entry.len() - i,
        {
            if str_eq(entry[i].cmd.as_str(), cmd.as_str()) {
                proof {
                    assert(first_match(entries0, cmd@, i as int));
                    assert forall|k: int| first_match(entries0, cmd@, k) implies k == i by {
                        if k < i {
                        } else if k > i {
                            assert(entries0[i as int].cmd@ == cmd@);
                        }
                    }
                }
                let e = HistoryEntry {
                    cmd: entry[i].cmd.clone(),
                    last_run: now,
                    pass_count: entry[i].pass_count + 1,
                    fail_count: entry[i].fail_count,
                };
                entry.set(i, e);
                added = true;
                break;
            }
            i = i + 1;
        }
        if !added {
            entry.push(HistoryEntry { cmd, last_run: now, pass_count: 1, fail_count: 0 });
            proof {
                assert(!exists|k: int| first_match(entries0, old(self).parser.input@, k));
            }
        }
        self.history.entries.insert(pwd, entry);
        let dir = HISTORY_DIR.to_owned();
        path_push(&dir, key.as_str())
    }

    /// Records the current input in the current directory's history, as run now, and
    /// gives the path of the file to which that history is to be written.
    pub fn hist_add_input(&mut self) -> (path: String)
        requires
            can_record(old(self).dir_history(), old(self).parser.input@),
            encoded_len_fits(encode_utf8(old(self).pwd@).len()),
        ensures
            input_recorded(*old(self), *final(self)),
            path@ == path_join(HISTORY_DIR@, history_file_name_of(old(self).pwd@)),
            final(self).parser == old(self).parser,
            final(self).cursor == old(self).cursor,
            final(self).only_cursor_parser_and_history_changed(*old(self)),
    {
        let elapsed = instant_elapsed(&instant_now());
        let now = duration_as_millis(&elapsed) as u64;
        self.hist_add_input_at(now)
    }
}

/// Recording a run keeps the commands of a directory's history distinct.
pub proof fn law_recording_keeps_commands_distinct(entries: Seq<HistoryEntry>, cmd: String, now: u64)
    requires
        commands_distinct(entries),
    ensures
        commands_distinct(recorded(entries, cmd, now)),
{
    let r = recorded(entries, cmd, now);
    if exists|i: int| first_match(entries, cmd@, i) {
        let i = choose|i: int| first_match(entries, cmd@, i);
        assert forall|a: int, b: int|
            0 <= a < r.len() && 0 <= b < r.len() && a != b implies r[a].cmd@ != r[b].cmd@ by {
            assert(r[a].cmd == entries[a].cmd);
            assert(r[b].cmd == entries[b].cmd);
        }
    } else {
        assert forall|a: int, b: int|
            0 <= a < r.len() && 0 <= b < r.len() && a != b implies r[a].cmd@ != r[b].cmd@ by {
            if a == entries.len() && entries[b].cmd@ == cmd@ {
                assert(first_match(entries, cmd@, b));
            } else if b == entries.len() && entries[a].cmd@ == cmd@ {
                assert(first_match(entries, cmd@, a));
            }
        }
    }
}

/// Stepping forward after stepping back from the entry at `i` (not the oldest) shows
/// that entry again.
pub proof fn law_next_undoes_prev(a: Rush, b: Rush, c: Rush, i: usize)
    requires
        a.history.idx == Some(i),
        0 < i < a.dir_history().len(),
        hist_prev_post(a, b),
        hist_next_post(b, c),
    ensures
        c.history.idx == Some(i),
        c.parser.input == a.dir_history()[i as int].cmd,
{
    assert(b.dir_history() == a.dir_history());
}

/// Stepping back after stepping forward from the entry at `i` (not the newest) shows
/// that entry again.
pub proof fn law_prev_undoes_next(a: Rush, b: Rush, c: Rush, i: usize)
    requires
        a.history.idx == Some(i),
        i + 1 < a.dir_history().len(),
        a.dir_history().len() <= usize::MAX,
        hist_next_post(a, b),
        hist_prev_post(b, c),
    ensures
        c.history.idx == Some(i),
        c.parser.input == a.dir_history()[i as int].cmd,
{
    assert(b.dir_history() == a.dir_history());
    let len = a.dir_history().len();
    assert(next_index(i, len) == Some((i + 1) as usize));
    assert(b.history.idx == Some((i + 1) as usize));
    assert(prev_index(b.history.idx, len) == i);
}

/// From a prompt that shows no entry, stepping back and then forward again leaves an
/// empty prompt that shows no entry.
pub proof fn law_prev_then_next_from_fresh_prompt(a: Rush, b: Rush, c: Rush)
    requires
        a.history.idx is None,
        a.dir_history().len() > 0,
        a.dir_history().len() <= usize::MAX,
        hist_prev_post(a, b),
        hist_next_post(b, c),
    ensures
        c.history.idx is None,
        c.parser.input@ == Seq::<char>::empty(),
{
    assert(b.dir_history() == a.dir_history());
    let len = a.dir_history().len();
    assert(b.history.idx == Some((len - 1) as usize));
    assert(next_index((len - 1) as usize, len) is None);
}

/// After a run of `cmd` is recorded, the history holds an entry for `cmd` stamped with
/// the run's time; the history grows by one entry exactly when it held none for `cmd`.
pub proof fn law_recorded_holds_the_run(entries: Seq<HistoryEntry>, cmd: String, now: u64)
    ensures
        exists|i: int|
            0 <= i < recorded(entries, cmd, now).len() && (#[trigger] recorded(entries, cmd, now)[i]).cmd@
                == cmd@ && recorded(entries, cmd, now)[i].last_run == now,
        (exists|i: int| first_match(entries, cmd@, i)) ==> recorded(entries, cmd, now).len()
            == entries.len(),
        !(exists|i: int| first_match(entries, cmd@, i)) ==> recorded(entries, cmd, now).len()
            == entries.len() + 1,
{
    let r = recorded(entries, cmd, now);
    if exists|i: int| first_match(entries, cmd@, i) {
        let i = choose|i: int| first_match(entries, cmd@, i);
        assert(r[i].cmd@ == cmd@ && r[i].last_run == now);
    } else {
        let i = entries.len() as int;
        assert(r[i].cmd@ == cmd@ && r[i].last_run == now);
    }
}

/// Recording the input keeps the commands of the working directory's history distinct,
/// leaves the input among them, and adds at most one entry.
pub proof fn law_recorded_input_is_remembered_once(a: Rush, b: Rush)
    requires
        commands_distinct(a.dir_history()),
        input_recorded(a, b),
        b.pwd == a.pwd,
    ensures
        commands_distinct(b.dir_history()),
        exists|i: int|
            0 <= i < b.dir_history().len() && (#[trigger] b.dir_history()[i]).cmd@
                == a.parser.input@,
        b.dir_history().len() <= a.dir_history().len() + 1,
{
    let now = choose|now: u64|
        b.history.entries@ == a.history.entries@.insert(
            a.pwd@,
            #[trigger] recorded(a.dir_history(), a.parser.input, now),
        );
    assert(b.dir_history() == recorded(a.dir_history(), a.parser.input, now));
    law_recording_keeps_commands_distinct(a.dir_history(), a.parser.input, now);
    law_recorded_holds_the_run(a.dir_history(), a.parser.input, now);
}

/// Stepping back through a non-empty history from a prompt that shows no entry shows
/// the newest entry; from an entry it shows the one before it, and from the oldest it
/// stays there. The cursor's columns are forgotten and the history itself is kept.
pub proof fn law_stepping_back(pre: Rush, post: Rush)
    requires
        pre.dir_history().len() > 0,
        hist_prev_post(pre, post),
    ensures
        pre.history.idx is None ==> post.history.idx == Some((pre.dir_history().len() - 1) as usize)
            && post.parser.input == pre.dir_history().last().cmd,
        pre.history.idx is Some && pre.history.idx.unwrap() > 0 ==> post.history.idx == Some(
            (pre.history.idx.unwrap() - 1) as usize,
        ) && post.parser.input == pre.dir_history()[pre.history.idx.unwrap() - 1].cmd,
        pre.history.idx == Some(0usize) ==> post.history.idx == Some(0usize) && post.parser.input
            == pre.dir_history()[0].cmd,
        post.cursor.is_cleared(),
        post.history.entries == pre.history.entries,
        post.pwd == pre.pwd,
        post.mode == pre.mode,
{
}

/// Stepping forward from the entry at `i` shows the entry after it; from the newest it
/// empties the prompt and shows no entry; with no entry shown it changes nothing.
pub proof fn law_stepping_forward(pre: Rush, post: Rush)
    requires
        pre.dir_history().len() > 0,
        pre.dir_history().len() <= usize::MAX,
        hist_next_post(pre, post),
    ensures
        pre.history.idx is None ==> post == pre,
        pre.history.idx is Some && pre.history.idx.unwrap() + 1 < pre.dir_history().len()
            ==> post.history.idx == Some((pre.history.idx.unwrap() + 1) as usize) && post.parser.input
            == pre.dir_history()[pre.history.idx.unwrap() + 1].cmd && post.cursor.is_cleared(),
        pre.history.idx is Some && pre.history.idx.unwrap() + 1 == pre.dir_history().len()
            ==> post.history.idx is None && post.parser.input@ == Seq::<char>::empty()
            && post.cursor.is_cleared(),
        post.history.entries == pre.history.entries,
        post.pwd == pre.pwd,
{
    if pre.history.idx is Some {
        let i = pre.history.idx.unwrap();
        let len = pre.dir_history().len();
        if i + 1 < len {
            assert(next_index(i, len) == Some((i + 1) as usize));
        }
    }
}

/// Recording a run of `cmd`: where the history holds `cmd`, its first entry gets one
/// more pass and the run's time, and nothing else changes; otherwise a new entry for
/// `cmd` with one pass, no failure and the run's time is added at the end.
pub proof fn law_recording_counts_one_pass(entries: Seq<HistoryEntry>, cmd: String, now: u64, i: int)
    requires
        0 <= i < entries.len(),
        entries[i].cmd@ == cmd@,
        forall|j: int| 0 <= j < i ==> entries[j].cmd@ != cmd@,
        entries[i].pass_count < u32::MAX,
    ensures
        recorded(entries, cmd, now).len() == entries.len(),
        recorded(entries, cmd, now)[i].cmd == entries[i].cmd,
        recorded(entries, cmd, now)[i].pass_count == entries[i].pass_count + 1,
        recorded(entries, cmd, now)[i].fail_count == entries[i].fail_count,
        recorded(entries, cmd, now)[i].last_run == now,
        forall|j: int| 0 <= j < entries.len() && j != i ==> recorded(entries, cmd, now)[j] == entries[j],
{
    assert(first_match(entries, cmd@, i));
    let k = choose|k: int| first_match(entries, cmd@, k);
    assert(k == i) by {
        if k < i {
            assert(entries[k].cmd@ != cmd@);
        } else if k > i {
            assert(entries[i].cmd@ != cmd@);
        }
    }
}

/// Recording a run of a command the history does not hold adds one entry for it at the
/// end, with one pass, no failure and the run's time.
pub proof fn law_recording_a_new_command(entries: Seq<HistoryEntry>, cmd: String, now: u64)
    requires
        forall|j: int| 0 <= j < entries.len() ==> entries[j].cmd@ != cmd@,
    ensures
        recorded(entries, cmd, now) == entries.push(
            HistoryEntry { cmd, last_run: now, pass_count: 1, fail_count: 0 },
        ),
{
}

} // verus!

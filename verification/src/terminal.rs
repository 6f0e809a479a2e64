//! Terminal sessions by id, and the reading of a command line into a program and its
//! arguments.
//!
//! The sessions themselves (a pseudo-terminal and the tasks that pump it) belong to the
//! runtime; the manager gives out their ids and holds them.

use vstd::prelude::*;
use crate::ids::{
    ids_issued, issued_id, lemma_fresh_id, lemma_ids_issued_grow, lemma_ids_issued_insert,
    lemma_ids_issued_remove, lemma_numbered_injective, numbered, numbered_id,
};
use crate::table::{
    has_key, insert_entry, key_seq, keys_unique, lemma_keys_no_duplicates, lemma_lookup_insert,
    lemma_lookup_remove, lookup, remove_entry, Table,
};

verus! {

/// Whether `c` is white space in Unicode (the `White_Space` property).
pub open spec fn is_white(c: char) -> bool {
    ||| '\u{9}' <= c <= '\u{d}'
    ||| c == ' '
    ||| c == '\u{85}'
    ||| c == '\u{a0}'
    ||| c == '\u{1680}'
    ||| '\u{2000}' <= c <= '\u{200a}'
    ||| c == '\u{2028}'
    ||| c == '\u{2029}'
    ||| c == '\u{202f}'
    ||| c == '\u{205f}'
    ||| c == '\u{3000}'
}

/// `char::is_whitespace`, written out.
pub fn is_white_char(c: char) -> (b: bool)
    ensures
        b == is_white(c),
{
    ('\u{9}' <= c && c <= '\u{d}') || c == ' ' || c == '\u{85}' || c == '\u{a0}' || c
        == '\u{1680}' || ('\u{2000}' <= c && c <= '\u{200a}') || c == '\u{2028}' || c
        == '\u{2029}' || c == '\u{202f}' || c == '\u{205f}' || c == '\u{3000}'
}

/// Reading `s` from the left: the words already ended, and the word still going on.
pub open spec fn scan_words(s: Seq<char>) -> (Seq<Seq<char>>, Seq<char>)
    decreases s.len(),
{
    if s.len() == 0 {
        (Seq::empty(), Seq::empty())
    } else {
        let (done, current) = scan_words(s.drop_last());
        if is_white(s.last()) {
            if current.len() > 0 {
                (done.push(current), Seq::empty())
            } else {
                (done, Seq::empty())
            }
        } else {
            (done, current.push(s.last()))
        }
    }
}

/// The words of `s`: its longest runs of characters that are not white space, in order.
pub open spec fn words(s: Seq<char>) -> Seq<Seq<char>> {
    let (done, current) = scan_words(s);
    if current.len() > 0 {
        done.push(current)
    } else {
        done
    }
}

/// Texts taken as their characters.
pub open spec fn word_texts(v: Seq<String>) -> Seq<Seq<char>> {
    v.map_values(|s: String| s@)
}

/// Splits `s` into its words, as `str::split_whitespace` does.
pub fn split_words(s: &str) -> (r: Vec<String>)
    ensures
        word_texts(r@) == words(s@),
{
    let n = s.unicode_len();
    let mut done: Vec<String> = Vec::new();
    let mut current = String::new();
    let mut i: usize = 0;
    while i < n
        invariant
            n == s@.len(),
            i <= n,
            (word_texts(done@), current@) == scan_words(s@.take(i as int)),
        decreases n - i,
    {
        let c = s.get_char(i);
        proof {
            assert(s@.take(i + 1).drop_last() =~= s@.take(i as int));
            assert(s@.take(i + 1).last() == c);
        }
        if is_white_char(c) {
            if current.unicode_len() > 0 {
                let ghost before = word_texts(done@);
                let word = current;
                current = String::new();
                done.push(word);
                assert(word_texts(done@) =~= before.push(word@));
            } else {
                current = String::new();
            }
        } else {
            let piece = s.substring_char(i, i + 1);
            assert(piece@ =~= seq![c]);
            current.append(piece);
        }
        i = i + 1;
    }
    assert(s@.take(n as int) =~= s@);
    if current.unicode_len() > 0 {
        let ghost before = word_texts(done@);
        let word = current;
        done.push(word);
        assert(word_texts(done@) =~= before.push(word@));
    }
    done
}

/// A command line read as a program and its arguments: the first word and the rest.
pub open spec fn command_parts(line: Seq<char>) -> Option<(Seq<char>, Seq<Seq<char>>)> {
    let w = words(line);
    if w.len() == 0 {
        None
    } else {
        Some((w[0], w.drop_first()))
    }
}

/// Reads a command line as a program and its arguments; a line with no word is refused.
pub fn parse_command_line(command: &str) -> (r: Result<(String, Vec<String>), String>)
    ensures
        command_parts(command@) is None <==> r is Err,
        r matches Ok(p) ==> command_parts(command@) == Some((p.0@, word_texts(p.1@))),
        r matches Err(e) ==> e@ == "No command provided"@,
{
    let mut parts = split_words(command);
    if parts.len() == 0 {
        return Err(String::from_str("No command provided"));
    }
    let ghost all = word_texts(parts@);
    let program = parts.remove(0);
    assert(word_texts(parts@) =~= all.drop_first());
    Ok((program, parts))
}

/// The words of a scanned text, and the word still going on, are never empty and hold no
/// white space.
proof fn lemma_scan_words_clean(s: Seq<char>)
    ensures
        forall|i: int|
            0 <= i < scan_words(s).0.len() ==> (#[trigger] scan_words(s).0[i]).len() > 0
                && forall|j: int| 0 <= j < scan_words(s).0[i].len() ==> !is_white(#[trigger] scan_words(s).0[i][j]),
        forall|j: int| 0 <= j < scan_words(s).1.len() ==> !is_white(#[trigger] scan_words(s).1[j]),
    decreases s.len(),
{
    if s.len() > 0 {
        lemma_scan_words_clean(s.drop_last());
        let (done, current) = scan_words(s.drop_last());
        let c = s.last();
        if is_white(c) {
            if current.len() > 0 {
                let d = done.push(current);
                assert forall|i: int| 0 <= i < d.len() implies (#[trigger] d[i]).len() > 0
                    && forall|j: int| 0 <= j < d[i].len() ==> !is_white(#[trigger] d[i][j]) by {
                    if i < done.len() {
                        assert(d[i] == done[i]);
                    } else {
                        assert(d[i] == current);
                    }
                }
            }
        } else {
            let cur = current.push(c);
            assert forall|j: int| 0 <= j < cur.len() implies !is_white(#[trigger] cur[j]) by {
                if j < current.len() {
                    assert(cur[j] == current[j]);
                }
            }
        }
    }
}

/// Every word of a command line is a non-empty run of characters none of which is white
/// space.
pub proof fn lemma_words_are_clean(s: Seq<char>)
    ensures
        forall|i: int|
            0 <= i < words(s).len() ==> (#[trigger] words(s)[i]).len() > 0 && forall|j: int|
                0 <= j < words(s)[i].len() ==> !is_white(#[trigger] words(s)[i][j]),
{
    lemma_scan_words_clean(s);
}

/// Scanning keeps every character that is not white space, in order: the ended words and
/// the word going on, one after the other, are those characters.
proof fn lemma_scan_keeps_text(s: Seq<char>)
    ensures
        scan_words(s).0.flatten() + scan_words(s).1 == s.filter(|c: char| !is_white(c)),
    decreases s.len(),
{
    broadcast use vstd::seq::Seq::lemma_flatten_push;

    let p = |c: char| !is_white(c);
    if s.len() == 0 {
        s.lemma_filter_len(p);
        assert(s.filter(p) =~= Seq::<char>::empty());
        assert(scan_words(s).0.flatten() =~= Seq::<char>::empty());
        assert(scan_words(s).0.flatten() + scan_words(s).1 =~= Seq::<char>::empty());
    } else {
        let d = s.drop_last();
        let c = s.last();
        lemma_scan_keeps_text(d);
        assert(s =~= d.push(c));
        d.lemma_filter_push(c, p);
        let (done, cur) = scan_words(d);
        if is_white(c) {
            if cur.len() > 0 {
                assert(done.push(cur).flatten() =~= done.flatten() + cur);
                assert(done.push(cur).flatten() + Seq::<char>::empty() =~= done.flatten() + cur);
            } else {
                assert(cur =~= Seq::<char>::empty());
                assert(done.flatten() + Seq::<char>::empty() =~= done.flatten() + cur);
            }
        } else {
            assert(done.flatten() + cur.push(c) =~= (done.flatten() + cur).push(c));
        }
    }
}

/// The words of a line, one after the other, are exactly its characters that are not white
/// space, in order: no such character is lost and none is added.
pub proof fn lemma_words_keep_text(s: Seq<char>)
    ensures
        words(s).flatten() == s.filter(|c: char| !is_white(c)),
{
    broadcast use vstd::seq::Seq::lemma_flatten_push;

    lemma_scan_keeps_text(s);
    let (done, cur) = scan_words(s);
    if cur.len() > 0 {
        assert(done.push(cur).flatten() =~= done.flatten() + cur);
    } else {
        assert(cur =~= Seq::<char>::empty());
        assert(done.flatten() + cur =~= done.flatten());
    }
}

/// A line with no white space in it is one word, the line itself, when it is not empty.
pub proof fn lemma_unbroken_line_is_one_word(s: Seq<char>)
    requires
        s.len() > 0,
        forall|j: int| 0 <= j < s.len() ==> !is_white(#[trigger] s[j]),
    ensures
        words(s) == seq![s],
{
    lemma_scan_unbroken(s);
    assert(words(s) =~= seq![s]);
}

proof fn lemma_scan_unbroken(s: Seq<char>)
    requires
        forall|j: int| 0 <= j < s.len() ==> !is_white(#[trigger] s[j]),
    ensures
        scan_words(s) == (Seq::<Seq<char>>::empty(), s),
    decreases s.len(),
{
    if s.len() > 0 {
        let d = s.drop_last();
        assert forall|j: int| 0 <= j < d.len() implies !is_white(#[trigger] d[j]) by {
            assert(d[j] == s[j]);
        }
        lemma_scan_unbroken(d);
        assert(!is_white(s[s.len() - 1]));
        assert(d.push(s.last()) =~= s);
    } else {
        assert(s =~= Seq::<char>::empty());
    }
}

/// A line that is all white space has no words, so it is refused as a command.
pub proof fn lemma_blank_line_has_no_words(s: Seq<char>)
    requires
        forall|j: int| 0 <= j < s.len() ==> is_white(#[trigger] s[j]),
    ensures
        words(s).len() == 0,
    decreases s.len(),
{
    if s.len() > 0 {
        lemma_blank_line_has_no_words(s.drop_last());
        assert(is_white(s[s.len() - 1]));
    }
}

/// The manager never gives the same session id twice.
pub proof fn lemma_terminal_ids_never_repeat(a: u64, b: u64)
    requires
        a != b,
    ensures
        terminal_id_for(a) != terminal_id_for(b),
{
    if terminal_id_for(a) == terminal_id_for(b) {
        lemma_numbered_injective("term-"@, a as nat, b as nat);
    }
}

/// A session that `add_session` stored is what a read of its id gives back, until it is
/// removed; reads of other ids are unchanged.
pub proof fn lemma_added_session_found<S>(
    sessions: Seq<(Seq<char>, S)>,
    id: Seq<char>,
    session: S,
    q: Seq<char>,
)
    requires
        keys_unique(sessions),
    ensures
        lookup(insert_entry(sessions, id, session), q) === if q == id {
            Some(session)
        } else {
            lookup(sessions, q)
        },
        lookup(remove_entry(insert_entry(sessions, id, session), id), id) === None::<S>,
{
    lemma_lookup_insert(sessions, id, session, q);
    lemma_lookup_remove(insert_entry(sessions, id, session), id, id);
}

/// The id given to the `n`-th terminal session.
pub open spec fn terminal_id_for(n: u64) -> Seq<char> {
    numbered("term-"@, n as nat)
}

/// The state of a terminal manager: the sessions by id and the count of ids given out.
pub struct TerminalManagerView<S> {
    pub sessions: Seq<(Seq<char>, S)>,
    pub next_id: u64,
}

/// What every terminal manager keeps: one session per id, each id one that the manager has
/// given out.
pub open spec fn terminal_wf<S>(m: TerminalManagerView<S>) -> bool {
    keys_unique(m.sessions) && ids_issued(m.sessions, "term-"@, m.next_id)
}

/// Manager for terminal sessions
pub struct TerminalManager<S> {
    sessions: Table<String, S>,
    next_id: u64,
}

impl<S> View for TerminalManager<S> {
    type V = TerminalManagerView<S>;

    closed spec fn view(&self) -> TerminalManagerView<S> {
        TerminalManagerView { sessions: self.sessions@, next_id: self.next_id }
    }
}

impl<S> TerminalManager<S> {
    #[verifier::type_invariant]
    spec fn well_formed(self) -> bool {
        terminal_wf(self@)
    }

    /// Confirms what every terminal manager keeps: one session per id, each id one that the
    /// manager has given out.
    pub fn check_invariants(&self)
        ensures
            terminal_wf(self@),
    {
        proof {
            use_type_invariant(self);
        }
    }

    /// How many ids the manager has given out, which is the number in the next id.
    pub fn ids_given(&self) -> (n: u64)
        ensures
            n == self@.next_id,
    {
        self.next_id
    }

    /// Create a new terminal manager
    pub fn new() -> (m: Self)
        ensures
            m@.sessions === Seq::<(Seq<char>, S)>::empty(),
            m@.next_id == 0,
            terminal_wf(m@),
    {
        let sessions: Table<String, S> = Table::new();
        sessions.check_keys();
        TerminalManager { sessions, next_id: 0 }
    }

    /// Create a new terminal session: gives out the next id ("term-0", "term-1", ...) and
    /// starts the session under it with `start`; a session that started is held under the
    /// id, which is returned, and a failed start is reported with the id used up.
    pub fn create_session<F: FnOnce(String) -> Result<S, String>>(&mut self, start: F) -> (r:
        Result<String, String>)
        requires
            old(self)@.next_id < u64::MAX,
            forall|id: String| #[trigger] start.requires((id,)),
        ensures
            final(self)@.next_id == old(self)@.next_id + 1,
            r matches Ok(id) ==> {
                &&& id@ == terminal_id_for(old(self)@.next_id)
                &&& exists|arg: String, session: S|
                    arg@ == id@ && #[trigger] start.ensures((arg,), Ok::<S, String>(session))
                        && final(self)@.sessions === insert_entry(
                        old(self)@.sessions,
                        id@,
                        session,
                    )
            },
            r matches Err(e) ==> {
                &&& exists|arg: String, out: Result<S, String>|
                    arg@ == terminal_id_for(old(self)@.next_id) && #[trigger] start.ensures(
                        (arg,),
                        out,
                    ) && out == Err::<S, String>(e)
                &&& final(self)@.sessions === old(self)@.sessions
            },
            !has_key(old(self)@.sessions, terminal_id_for(old(self)@.next_id)),
            r is Ok ==> final(self)@.sessions.len() == old(self)@.sessions.len() + 1,
            terminal_wf(final(self)@),
    {
        proof {
            use_type_invariant(&*self);
            lemma_fresh_id(self@.sessions, "term-"@, self.next_id);
            lemma_ids_issued_grow(self@.sessions, "term-"@, self.next_id, (self.next_id + 1) as u64);
        }
        let ghost n = self.next_id;
        let id = numbered_id("term-", self.next_id);
        self.next_id = self.next_id + 1;
        let arg = id.clone();
        let ghost given = arg;
        let started = start(arg);
        assert(given@ == terminal_id_for(old(self)@.next_id) && start.ensures((given,), started));
        match started {
            Ok(session) => {
                let key = id.clone();
                let mut sessions: Table<String, S> = Table::new();
                std::mem::swap(&mut sessions, &mut self.sessions);
                let ghost before = sessions@;
                proof {
                    assert(issued_id("term-"@, key@, self.next_id)) by {
                        assert(n < self.next_id && key@ == numbered("term-"@, n as nat));
                    }
                    lemma_ids_issued_insert(before, "term-"@, self.next_id, key@, session);
                }
                sessions.insert(key, session);
                self.sessions = sessions;
                Ok(id)
            },
            Err(e) => Err(e),
        }
    }

    /// Get a terminal session by ID
    pub fn get_session(&self, id: &str) -> (r: Option<&S>)
        ensures
            match r {
                Some(s) => lookup(self@.sessions, id@) === Some(*s),
                None => lookup(self@.sessions, id@).is_none(),
            },
    {
        let key = id.to_owned();
        self.sessions.get(&key)
    }

    /// Remove a terminal session; removing an unknown id changes nothing
    pub fn remove_session(&mut self, id: &str) -> (r: Result<(), String>)
        ensures
            r is Ok,
            final(self)@.sessions === remove_entry(old(self)@.sessions, id@),
            final(self)@.next_id == old(self)@.next_id,
            terminal_wf(final(self)@),
    {
        proof {
            use_type_invariant(&*self);
        }
        let key = id.to_owned();
        let mut sessions: Table<String, S> = Table::new();
        std::mem::swap(&mut sessions, &mut self.sessions);
        proof {
            lemma_ids_issued_remove(sessions@, "term-"@, self.next_id, key@);
        }
        sessions.remove(&key);
        self.sessions = sessions;
        Ok(())
    }

    /// List all session IDs, in the order the sessions started
    pub fn list_sessions(&self) -> (r: Vec<String>)
        ensures
            r@.map_values(|s: String| s@) == key_seq(self@.sessions),
            r@.map_values(|s: String| s@).no_duplicates(),
    {
        proof {
            use_type_invariant(self);
            lemma_keys_no_duplicates(self@.sessions);
        }
        self.sessions.keys()
    }
}

} // verus!

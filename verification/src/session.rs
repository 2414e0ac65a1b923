//! The sessions of the user interface: which pairs of entries are open, and
//! which of them is shown.

use vstd::prelude::*;
use vstd::string::*;
use vstd::arithmetic::div_mod::{lemma_mod_self_0, lemma_small_mod};
use crate::item::{FSItem, FSItemType, FSItemView};

verus! {

/// One comparison that the user has open: a left and a right entry of the
/// same kind.
#[derive(Debug)]
pub struct Session<'a> {
    id: usize,
    name: &'a str,
    left: FSItem,
    right: FSItem,
}

/// The mathematical value of a [`Session`].
pub struct SessionView {
    pub id: usize,
    pub name: Seq<char>,
    pub left: FSItemView,
    pub right: FSItemView,
}

impl<'a> View for Session<'a> {
    type V = SessionView;

    closed spec fn view(&self) -> SessionView {
        SessionView { id: self.id, name: self.name@, left: self.left@, right: self.right@ }
    }
}

impl<'a> Session<'a> {
    #[verifier::type_invariant]
    spec fn paired(self) -> bool {
        self.left@.item_type == self.right@.item_type
    }

    /// A session on two entries of the same kind. Without a name the session
    /// has the empty name.
    pub fn new(id: usize, name: Option<&'a str>, left: FSItem, right: FSItem) -> (r: Self)
        requires
            left@.item_type == right@.item_type,
        ensures
            r@ == (SessionView {
                id,
                name: match name {
                    Some(n) => n@,
                    None => Seq::empty(),
                },
                left: left@,
                right: right@,
            }),
    {
        proof {
            reveal_strlit("");
        }
        assert(""@ =~= Seq::<char>::empty());
        let name = match name {
            Some(n) => n,
            None => "",
        };
        Self { id, name, left, right }
    }

    /// The number of the session.
    pub fn id(&self) -> (r: usize)
        ensures
            r == self@.id,
    {
        self.id
    }

    /// The name of the session.
    pub fn name(&self) -> (r: &'a str)
        ensures
            r@ == self@.name,
    {
        self.name
    }

    /// The left entry.
    pub fn left(&self) -> (r: &FSItem)
        ensures
            r@ == self@.left,
            self@.left.item_type == self@.right.item_type,
    {
        proof {
            use_type_invariant(self);
        }
        &self.left
    }

    /// The right entry.
    pub fn right(&self) -> (r: &FSItem)
        ensures
            r@ == self@.right,
    {
        &self.right
    }

    /// The kind of what the session compares: that of its left entry.
    pub fn session_type(&self) -> (r: &FSItemType)
        ensures
            r@ == self@.left.item_type,
    {
        self.left.item_type()
    }
}

/// What the user interface does after a key.
#[derive(Copy, Clone, Debug, PartialEq, Eq, Structural)]
pub enum Action {
    /// Draw again and wait for the next key.
    Continue,
    /// Leave.
    Quit,
}

/// The most sessions that can be opened with the keyboard: one for each of
/// the digits 1 to 9.
pub const MAX_SESSIONS: usize = 9;

/// The open sessions and the one that is shown.
#[derive(Debug)]
pub struct App<'a> {
    sessions: Vec<Session<'a>>,
    curr_session_idx: usize,
}

/// The mathematical value of an [`App`].
pub struct AppView {
    pub sessions: Seq<SessionView>,
    pub curr_session_idx: usize,
}

impl<'a> View for App<'a> {
    type V = AppView;

    closed spec fn view(&self) -> AppView {
        AppView {
            sessions: self.sessions@.map_values(|s: Session<'a>| s@),
            curr_session_idx: self.curr_session_idx,
        }
    }
}

impl AppView {
    /// There is at least one session, and the session that is shown is one
    /// of them.
    pub open spec fn well_formed(self) -> bool {
        self.curr_session_idx < self.sessions.len()
    }

    /// The same sessions with the next one shown, the first after the last.
    pub open spec fn next(self) -> AppView {
        AppView {
            curr_session_idx: ((self.curr_session_idx + 1) % (self.sessions.len() as int)) as usize,
            ..self
        }
    }

    /// The same sessions with the one before shown, the last before the
    /// first.
    pub open spec fn prev(self) -> AppView {
        AppView {
            curr_session_idx: if self.curr_session_idx == 0 {
                (self.sessions.len() - 1) as usize
            } else {
                (self.curr_session_idx - 1) as usize
            },
            ..self
        }
    }

    /// One more session at the end, called "fake", on the entries of the
    /// session that was shown; the new session is shown.
    pub open spec fn added(self) -> AppView {
        AppView {
            sessions: self.sessions.push(
                SessionView {
                    id: (self.sessions.len() + 1) as usize,
                    name: "fake"@,
                    left: self.sessions[self.curr_session_idx as int].left,
                    right: self.sessions[self.curr_session_idx as int].right,
                },
            ),
            curr_session_idx: self.sessions.len() as usize,
        }
    }

    /// The session that the digit key `c` selects, if it selects one.
    pub open spec fn selected(self, c: char) -> AppView {
        let id = c as u32 - '0' as u32;
        if '1' <= c <= '9' && id <= self.sessions.len() {
            AppView { curr_session_idx: (id - 1) as usize, ..self }
        } else {
            self
        }
    }

    /// What a key does: `>` and `<` show the next session and the one
    /// before, a digit shows the session of that number if there is one, `n`
    /// opens a new session unless [`MAX_SESSIONS`] are open, and every other
    /// key changes nothing.
    pub open spec fn after_key(self, c: char) -> AppView {
        if c == '>' {
            self.next()
        } else if c == '<' {
            self.prev()
        } else if c == 'n' {
            if self.sessions.len() < MAX_SESSIONS {
                self.added()
            } else {
                self
            }
        } else if c == 'q' {
            self
        } else {
            self.selected(c)
        }
    }
}

/// The digits 1 to `n`, then `>` and `<`: the keys that select a session.
pub open spec fn tab_keys(n: nat) -> Seq<char> {
    "123456789"@.subrange(0, n as int) + seq!['>', '<']
}

impl<'a> App<'a> {
    /// An application with one session, which is shown.
    pub fn new(session: Session<'a>) -> (r: Self)
        ensures
            r@ == (AppView { sessions: seq![session@], curr_session_idx: 0 }),
            r@.well_formed(),
    {
        let mut sessions: Vec<Session<'a>> = Vec::new();
        sessions.push(session);
        let r = Self { sessions, curr_session_idx: 0 };
        assert(r@.sessions =~= seq![session@]);
        r
    }

    /// The number of sessions.
    pub fn n_sessions(&self) -> (n: usize)
        ensures
            n == self@.sessions.len(),
    {
        self.sessions.len()
    }

    /// The index of the session that is shown.
    pub fn curr_session_idx(&self) -> (i: usize)
        ensures
            i == self@.curr_session_idx,
    {
        self.curr_session_idx
    }

    /// The session that is shown.
    pub fn curr_session(&self) -> (s: &Session<'a>)
        requires
            self@.well_formed(),
        ensures
            s@ == self@.sessions[self@.curr_session_idx as int],
    {
        &self.sessions[self.curr_session_idx]
    }

    /// Shows the next session, and the first one after the last.
    pub fn activate_next_session(&mut self)
        requires
            old(self)@.well_formed(),
        ensures
            final(self)@ == old(self)@.next(),
            final(self)@.well_formed(),
    {
        let n = self.sessions.len();
        if self.curr_session_idx + 1 >= n {
            proof {
                lemma_mod_self_0(n as int);
            }
            self.curr_session_idx = 0;
        } else {
            proof {
                lemma_small_mod((self.curr_session_idx + 1) as nat, n as nat);
            }
            self.curr_session_idx = self.curr_session_idx + 1;
        }
    }

    /// Shows the session before, and the last one before the first.
    pub fn activate_prev_session(&mut self)
        requires
            old(self)@.well_formed(),
        ensures
            final(self)@ == old(self)@.prev(),
            final(self)@.well_formed(),
    {
        if self.curr_session_idx == 0 {
            self.curr_session_idx = self.sessions.len() - 1;
        } else {
            self.curr_session_idx = self.curr_session_idx - 1;
        }
    }

    /// Opens a session on the entries of the one that is shown, and shows
    /// it.
    pub fn add_session(&mut self)
        requires
            old(self)@.well_formed(),
            old(self)@.sessions.len() < usize::MAX,
        ensures
            final(self)@ == old(self)@.added(),
            final(self)@.well_formed(),
    {
        let ghost before = self@.sessions;
        let n = self.sessions.len();
        let current = &self.sessions[self.curr_session_idx];
        proof {
            use_type_invariant(current);
        }
        let left = current.left.duplicate();
        let right = current.right.duplicate();
        let session = Session::new(n + 1, Some("fake"), left, right);
        self.sessions.push(session);
        self.curr_session_idx = n;
        assert(self@.sessions =~= before.push(session@));
    }

    /// Shows the session whose number the digit `c` is, if there is one.
    pub fn select(&mut self, c: char)
        requires
            old(self)@.well_formed(),
        ensures
            final(self)@ == old(self)@.selected(c),
            final(self)@.well_formed(),
    {
        if '1' <= c && c <= '9' {
            let id: u32 = c as u32 - '0' as u32;
            if id as usize <= self.sessions.len() {
                self.curr_session_idx = (id - 1) as usize;
            }
        }
    }

    /// Takes a key that the user pressed, and says whether to go on: `q`
    /// quits and changes nothing.
    pub fn on_key(&mut self, c: char) -> (action: Action)
        requires
            old(self)@.well_formed(),
        ensures
            final(self)@ == old(self)@.after_key(c),
            final(self)@.well_formed(),
            action == if c == 'q' {
                Action::Quit
            } else {
                Action::Continue
            },
    {
        if c == 'q' {
            return Action::Quit;
        }
        if c == '>' {
            self.activate_next_session();
        } else if c == '<' {
            self.activate_prev_session();
        } else if c == 'n' {
            if self.sessions.len() < MAX_SESSIONS {
                self.add_session();
            }
        } else {
            self.select(c);
        }
        Action::Continue
    }

    /// The names of the sessions, in order: the titles of the tabs.
    pub fn titles(&self) -> (r: Vec<&'a str>)
        ensures
            r@.len() == self@.sessions.len(),
            forall|i: int| 0 <= i < r@.len() ==> (#[trigger] r@[i])@ == self@.sessions[i].name,
    {
        let mut r: Vec<&'a str> = Vec::new();
        let mut i: usize = 0;
        while i < self.sessions.len()
            invariant
                i <= self.sessions@.len(),
                r@.len() == i,
                forall|k: int| 0 <= k < i ==> (#[trigger] r@[k])@ == self@.sessions[k].name,
            decreases self.sessions@.len() - i,
        {
            r.push(self.sessions[i].name);
            i += 1;
        }
        r
    }

    /// The keys that select a session, as the command bar shows them.
    pub fn tab_sel_hint(&self) -> (r: String)
        requires
            self@.sessions.len() <= MAX_SESSIONS,
        ensures
            r@ == tab_keys(self@.sessions.len()),
    {
        proof {
            reveal_strlit("123456789");
            reveal_strlit("><");
        }
        let digits = "123456789";
        String::from_str(digits.substring_ascii(0, self.sessions.len())).concat("><")
    }
}

} // verus!

//! The commands that the command bar of the user interface offers.

use vstd::prelude::*;
use vstd::string::*;

verus! {

/// One command: its name and the key that triggers it.
#[derive(Clone, Copy, Debug)]
pub struct CmdInfo<'a> {
    name: &'a str,
    key_hint: &'a str,
    is_visible: bool,
    is_active: bool,
}

/// The mathematical value of a [`CmdInfo`].
pub struct CmdInfoView {
    pub name: Seq<char>,
    pub key_hint: Seq<char>,
    pub is_visible: bool,
    pub is_active: bool,
}

impl<'a> View for CmdInfo<'a> {
    type V = CmdInfoView;

    closed spec fn view(&self) -> CmdInfoView {
        CmdInfoView {
            name: self.name@,
            key_hint: self.key_hint@,
            is_visible: self.is_visible,
            is_active: self.is_active,
        }
    }
}

/// The text by which a command is shown: its name, and the key in square
/// brackets.
pub open spec fn label(name: Seq<char>, key_hint: Seq<char>) -> Seq<char> {
    name + seq![' ', '['] + key_hint + seq![']']
}

impl<'a> CmdInfo<'a> {
    /// A command that is visible and active.
    pub fn new(name: &'a str, key_hint: &'a str) -> (r: Self)
        ensures
            r@ == (CmdInfoView { name: name@, key_hint: key_hint@, is_visible: true, is_active: true }),
    {
        Self { name, key_hint, is_visible: true, is_active: true }
    }

    /// The same command, not shown.
    pub fn conceal(self) -> (r: Self)
        ensures
            r@ == (CmdInfoView { is_visible: false, ..self@ }),
    {
        Self { is_visible: false, ..self }
    }

    /// The same command, shown.
    pub fn show(self) -> (r: Self)
        ensures
            r@ == (CmdInfoView { is_visible: true, ..self@ }),
    {
        Self { is_visible: true, ..self }
    }

    /// The same command, not available.
    pub fn deactivate(self) -> (r: Self)
        ensures
            r@ == (CmdInfoView { is_active: false, ..self@ }),
    {
        Self { is_active: false, ..self }
    }

    /// The same command, available.
    pub fn activate(self) -> (r: Self)
        ensures
            r@ == (CmdInfoView { is_active: true, ..self@ }),
    {
        Self { is_active: true, ..self }
    }

    /// The name of the command.
    pub fn name(&self) -> (r: &'a str)
        ensures
            r@ == self@.name,
    {
        self.name
    }

    /// The key that triggers the command.
    pub fn key_hint(&self) -> (r: &'a str)
        ensures
            r@ == self@.key_hint,
    {
        self.key_hint
    }

    /// Whether the command is shown.
    pub fn is_visible(&self) -> (r: bool)
        ensures
            r == self@.is_visible,
    {
        self.is_visible
    }

    /// Whether the command is available.
    pub fn is_active(&self) -> (r: bool)
        ensures
            r == self@.is_active,
    {
        self.is_active
    }

    /// The text by which the command is shown.
    pub fn text(&self) -> (r: String)
        ensures
            r@ == label(self@.name, self@.key_hint),
    {
        proof {
            reveal_strlit(" [");
            reveal_strlit("]");
        }
        let r = String::from_str(self.name).concat(" [").concat(self.key_hint).concat("]");
        r
    }
}

/// How much room the command bar takes.
#[derive(Copy, Clone, Debug, PartialEq, Eq, Structural)]
pub enum CmdBarViewMode {
    Full,
    Compact,
}

/// The command bar: the commands in the order in which they were added.
#[derive(Clone, Debug)]
pub struct CmdBar<'a> {
    cmd_infos: Vec<CmdInfo<'a>>,
    view_mode: CmdBarViewMode,
}

/// The mathematical value of a [`CmdBar`].
pub struct CmdBarView {
    pub cmd_infos: Seq<CmdInfoView>,
    pub view_mode: CmdBarViewMode,
}

impl<'a> View for CmdBar<'a> {
    type V = CmdBarView;

    closed spec fn view(&self) -> CmdBarView {
        CmdBarView {
            cmd_infos: self.cmd_infos@.map_values(|c: CmdInfo<'a>| c@),
            view_mode: self.view_mode,
        }
    }
}

impl<'a> CmdBar<'a> {
    /// A compact command bar without commands.
    pub fn new() -> (r: Self)
        ensures
            r@ == (CmdBarView { cmd_infos: Seq::empty(), view_mode: CmdBarViewMode::Compact }),
    {
        let r = Self { cmd_infos: Vec::new(), view_mode: CmdBarViewMode::Compact };
        assert(r@.cmd_infos =~= Seq::empty());
        r
    }

    /// The same bar with one more command at its end, visible and active.
    pub fn append_cmd(self, name: &'a str, key_hint: &'a str) -> (r: Self)
        ensures
            r@ == (CmdBarView {
                cmd_infos: self@.cmd_infos.push(
                    CmdInfoView { name: name@, key_hint: key_hint@, is_visible: true, is_active: true },
                ),
                ..self@
            }),
    {
        let CmdBar { cmd_infos, view_mode } = self;
        let mut cmd_infos = cmd_infos;
        cmd_infos.push(CmdInfo::new(name, key_hint));
        let r = CmdBar { cmd_infos, view_mode };
        assert(r@.cmd_infos =~= self@.cmd_infos.push(
            CmdInfoView { name: name@, key_hint: key_hint@, is_visible: true, is_active: true },
        ));
        r
    }

    /// The number of commands.
    pub fn len(&self) -> (n: usize)
        ensures
            n == self@.cmd_infos.len(),
    {
        self.cmd_infos.len()
    }

    /// The command at `index`, if there is one.
    pub fn cmd(&self, index: usize) -> (c: Option<CmdInfo<'a>>)
        ensures
            c is Some <==> index < self@.cmd_infos.len(),
            c matches Some(found) ==> found@ == self@.cmd_infos[index as int],
    {
        if index < self.cmd_infos.len() {
            Some(self.cmd_infos[index])
        } else {
            None
        }
    }

    /// The texts by which the commands are shown, in order.
    pub fn texts(&self) -> (r: Vec<String>)
        ensures
            r@.len() == self@.cmd_infos.len(),
            forall|i: int|
                0 <= i < r@.len() ==> (#[trigger] r@[i])@ == label(
                    self@.cmd_infos[i].name,
                    self@.cmd_infos[i].key_hint,
                ),
    {
        let mut r: Vec<String> = Vec::new();
        let mut i: usize = 0;
        while i < self.cmd_infos.len()
            invariant
                i <= self.cmd_infos@.len(),
                r@.len() == i,
                forall|k: int|
                    0 <= k < i ==> (#[trigger] r@[k])@ == label(
                        self@.cmd_infos[k].name,
                        self@.cmd_infos[k].key_hint,
                    ),
            decreases self.cmd_infos@.len() - i,
        {
            r.push(self.cmd_infos[i].text());
            i += 1;
        }
        r
    }
}

} // verus!

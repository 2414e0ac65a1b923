//! The tab bar of the user interface: one tab for each session.

use vstd::prelude::*;
use vstd::string::*;

verus! {

/// The tab bar: the titles of the tabs, and which tab is selected.
#[derive(Clone, Debug)]
pub struct TabBar<'a> {
    titles: Vec<&'a str>,
    curr_tab_idx: usize,
    n_lines: u8,
}

/// The mathematical value of a [`TabBar`].
pub struct TabBarView {
    pub titles: Seq<Seq<char>>,
    pub curr_tab_idx: usize,
    pub n_lines: u8,
}

impl<'a> View for TabBar<'a> {
    type V = TabBarView;

    closed spec fn view(&self) -> TabBarView {
        TabBarView {
            titles: self.titles@.map_values(|t: &'a str| t@),
            curr_tab_idx: self.curr_tab_idx,
            n_lines: self.n_lines,
        }
    }
}

/// The character for a digit.
pub open spec fn digit(d: nat) -> char {
    if d == 0 {
        '0'
    } else if d == 1 {
        '1'
    } else if d == 2 {
        '2'
    } else if d == 3 {
        '3'
    } else if d == 4 {
        '4'
    } else if d == 5 {
        '5'
    } else if d == 6 {
        '6'
    } else if d == 7 {
        '7'
    } else if d == 8 {
        '8'
    } else {
        '9'
    }
}

/// A number in decimal notation.
pub open spec fn decimal(n: nat) -> Seq<char>
    decreases n,
{
    if n < 10 {
        seq![digit(n)]
    } else {
        decimal(n / 10).push(digit(n % 10))
    }
}

/// The text on the tab at `index`, counted from 0: its title, and its number,
/// counted from 1, in square brackets.
pub open spec fn tab_label(title: Seq<char>, index: nat) -> Seq<char> {
    title + seq![' ', '['] + decimal(index + 1) + seq![']']
}

fn digit_text(d: usize) -> (r: &'static str)
    requires
        d < 10,
    ensures
        r@ == seq![digit(d as nat)],
{
    proof {
        reveal_strlit("0");
        reveal_strlit("1");
        reveal_strlit("2");
        reveal_strlit("3");
        reveal_strlit("4");
        reveal_strlit("5");
        reveal_strlit("6");
        reveal_strlit("7");
        reveal_strlit("8");
        reveal_strlit("9");
    }
    let r = if d == 0 {
        "0"
    } else if d == 1 {
        "1"
    } else if d == 2 {
        "2"
    } else if d == 3 {
        "3"
    } else if d == 4 {
        "4"
    } else if d == 5 {
        "5"
    } else if d == 6 {
        "6"
    } else if d == 7 {
        "7"
    } else if d == 8 {
        "8"
    } else {
        "9"
    };
    r
}

/// A number in decimal notation.
pub fn decimal_text(n: usize) -> (r: String)
    ensures
        r@ == decimal(n as nat),
    decreases n,
{
    if n < 10 {
        String::from_str(digit_text(n))
    } else {
        let r = decimal_text(n / 10).concat(digit_text(n % 10));
        r
    }
}

impl<'a> TabBar<'a> {
    /// A tab bar of one line.
    pub fn new(titles: Vec<&'a str>, curr_tab_idx: usize) -> (r: Self)
        ensures
            r@ == (TabBarView {
                titles: titles@.map_values(|t: &'a str| t@),
                curr_tab_idx,
                n_lines: 1,
            }),
    {
        Self { titles, curr_tab_idx, n_lines: 1 }
    }

    /// The number of tabs.
    pub fn len(&self) -> (n: usize)
        ensures
            n == self@.titles.len(),
    {
        self.titles.len()
    }

    /// Which tab is selected.
    pub fn curr_tab_idx(&self) -> (i: usize)
        ensures
            i == self@.curr_tab_idx,
    {
        self.curr_tab_idx
    }

    /// The texts on the tabs, in order.
    pub fn labels(&self) -> (r: Vec<String>)
        ensures
            r@.len() == self@.titles.len(),
            forall|i: int|
                0 <= i < r@.len() ==> (#[trigger] r@[i])@ == tab_label(self@.titles[i], i as nat),
    {
        proof {
            reveal_strlit(" [");
            reveal_strlit("]");
        }
        let mut r: Vec<String> = Vec::new();
        let mut i: usize = 0;
        while i < self.titles.len()
            invariant
                i <= self.titles@.len(),
                r@.len() == i,
                " ["@ == seq![' ', '['],
                "]"@ == seq![']'],
                forall|k: int|
                    0 <= k < i ==> (#[trigger] r@[k])@ == tab_label(self@.titles[k], k as nat),
            decreases self.titles@.len() - i,
        {
            let number = decimal_text(i + 1);
            let text = String::from_str(self.titles[i]).concat(" [").concat(number.as_str()).concat(
                "]",
            );
            r.push(text);
            i += 1;
        }
        r
    }
}

} // verus!

//! The modal editor's pending-action model.
//!
//! The message composer reads keys in a modal (vim-style) fashion.  Between
//! keys it remembers a pending action: a command character, an accumulated
//! count, or both.  The rendering and the text buffer live outside this
//! crate; here stands only the action state and how a decoded key updates
//! it.
use vstd::prelude::*;

verus! {

/// The composer's input mode.
#[derive(Debug, Clone, Copy, PartialEq, Eq, Structural)]
pub enum VimMode {
    Normal,
    Insert,
    Visual,
    Command,
}

impl Default for VimMode {
    /// The composer starts in normal mode.
    fn default() -> (r: Self)
        ensures
            r == VimMode::Normal,
    {
        VimMode::Normal
    }
}

/// The pending action: a command character, an accumulated count, or both.
#[derive(Debug, Clone, Copy, PartialEq, Eq, Structural)]
pub enum Action {
    Char(char),
    Number(u32),
    CharNumber(char, u32),
    Empty,
}

impl Default for Action {
    /// No action is pending at first.
    fn default() -> (r: Self)
        ensures
            r == Action::Empty,
    {
        Action::Empty
    }
}

/// How a newly decoded action folds into the pending one: a command
/// character replaces what was pending, a digit starts or extends a count,
/// and a count attaches to a pending command character.
pub open spec fn action_update(prev: Action, next: Action) -> Action {
    match (prev, next) {
        (Action::Char(_), Action::Char(c)) => Action::Char(c),
        (Action::Empty, Action::Char(c)) => Action::Char(c),
        (Action::Number(_), Action::Char(c)) => Action::Char(c),
        (Action::Empty, Action::Number(n)) => Action::Number(n),
        (Action::Char(c), Action::Number(n)) => Action::CharNumber(c, n),
        (Action::CharNumber(c, before), Action::Number(n)) => Action::CharNumber(
            c,
            (before * 10 + n) as u32,
        ),
        (Action::CharNumber(_, _), Action::Char(c2)) => Action::Char(c2),
        (Action::Number(before), Action::Number(n)) => Action::Number((before * 10 + n) as u32),
        (_, Action::Empty) => Action::Empty,
        (_, Action::CharNumber(_, _)) => prev,
    }
}

impl Action {
    /// Forget the pending action.
    pub fn clear(&mut self)
        ensures
            *final(self) == Action::Empty,
    {
        *self = Action::Empty;
    }

    /// The pending command character, if any.
    pub fn get_char(&self) -> (r: Option<char>)
        ensures
            match *self {
                Action::Char(c) => r == Some(c),
                Action::CharNumber(c, _) => r == Some(c),
                _ => r is None,
            },
    {
        match *self {
            Action::Char(c) => Some(c),
            Action::CharNumber(c, _) => Some(c),
            _ => None,
        }
    }

    /// Whether exactly a command character is pending.
    pub fn is_char(&self) -> (r: bool)
        ensures
            r == (*self matches Action::Char(_)),
    {
        match self {
            Action::Char(_) => true,
            _ => false,
        }
    }

    /// The pending count, if any.
    pub fn get_number(&self) -> (r: Option<u32>)
        ensures
            match *self {
                Action::Number(n) => r == Some(n),
                Action::CharNumber(_, n) => r == Some(n),
                _ => r is None,
            },
    {
        match *self {
            Action::Number(n) => Some(n),
            Action::CharNumber(_, n) => Some(n),
            _ => None,
        }
    }

    /// Whether exactly a count is pending.
    pub fn is_number(&self) -> (r: bool)
        ensures
            r == (*self matches Action::Number(_)),
    {
        match self {
            Action::Number(_) => true,
            _ => false,
        }
    }

    /// The action a typed character stands for: a digit contributes to a
    /// count, anything else is a command character.
    pub fn from_char(c: char) -> (r: Action)
        ensures
            48 <= c as u32 <= 57 ==> r == Action::Number((c as u32 - 48) as u32),
            !(48 <= c as u32 <= 57) ==> r == Action::Char(c),
    {
        let v = c as u32;
        if 48 <= v && v <= 57 {
            Action::Number(v - 48)
        } else {
            Action::Char(c)
        }
    }

    /// Fold a newly decoded action into the pending one.  An accumulated
    /// count must stay within its type; a combined action never arrives
    /// from key decoding.
    pub fn update(&mut self, next: Action)
        requires
            !(next matches Action::CharNumber(_, _)),
            match (*old(self), next) {
                (Action::CharNumber(_, before), Action::Number(n)) => before as int * 10 + n as int
                    <= u32::MAX as int,
                (Action::Number(before), Action::Number(n)) => before as int * 10 + n as int
                    <= u32::MAX as int,
                _ => true,
            },
        ensures
            *final(self) == action_update(*old(self), next),
    {
        match (*self, next) {
            (Action::Char(_), Action::Char(c)) => {
                *self = Action::Char(c);
            },
            (Action::Empty, Action::Char(c)) => {
                *self = Action::Char(c);
            },
            (Action::Number(_), Action::Char(c)) => {
                *self = Action::Char(c);
            },
            (Action::Empty, Action::Number(n)) => {
                *self = Action::Number(n);
            },
            (Action::Char(c), Action::Number(n)) => {
                *self = Action::CharNumber(c, n);
            },
            (Action::CharNumber(c, before), Action::Number(n)) => {
                *self = Action::CharNumber(c, before * 10 + n);
            },
            (Action::CharNumber(_, _), Action::Char(c2)) => {
                *self = Action::Char(c2);
            },
            (Action::Number(before), Action::Number(n)) => {
                *self = Action::Number(before * 10 + n);
            },
            (_, Action::Empty) => {
                *self = Action::Empty;
            },
            (_, Action::CharNumber(_, _)) => {
            },
        }
    }
}

} // verus!

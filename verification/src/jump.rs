//! The number jump sub-mode.

use vstd::prelude::*;

use crate::host::{BareKey, Key};
use crate::ids::group_views;
use crate::line::less;
use crate::state::{NavV, State, StateV};
use crate::text::{
    begins_with, char_count, chars_of, decimal, digits, lemma_digits_len, lemma_leading_zeros,
    lemma_number_of_digits, repeat, repeated, slice_of, starts_with,
};

verus! {

broadcast use group_views;

#[derive(Debug)]
pub struct JumpState {
    /// The digits typed so far.
    pub buffer: String,
}

#[verifier::ext_equal]
pub struct JumpStateV {
    pub buffer: Seq<char>,
}

impl View for JumpState {
    type V = JumpStateV;

    open spec fn view(&self) -> JumpStateV {
        JumpStateV { buffer: self.buffer@ }
    }
}

/// The number of a row among `count` rows: counted from one, and padded with zeros to the
/// length of the largest number.
pub open spec fn row_number(count: nat, index: nat) -> Seq<char> {
    let d = digits(index + 1);
    repeated('0', less(digits(count).len(), d.len())) + d
}

/// The first row at or after `from` whose number begins with the text; the count where
/// there is none.
pub open spec fn first_row(count: nat, from: nat, buffer: Seq<char>) -> nat
    decreases count - from,
{
    if from >= count {
        count
    } else if begins_with(row_number(count, from), buffer) {
        from
    } else {
        first_row(count, from + 1, buffer)
    }
}

impl StateV {
    pub open spec fn with_jump(self, jump: Option<JumpStateV>) -> StateV {
        StateV { nav: NavV { jump, ..self.nav }, ..self }
    }

    pub open spec fn enter_jump(self) -> StateV {
        self.with_jump(Some(JumpStateV { buffer: Seq::empty() }))
    }

    pub open spec fn pane_number(self, index: nat) -> Seq<char> {
        row_number(self.list.selectable.len(), index)
    }

    /// The number column of a row: the number, and whether it is still in the running.
    pub open spec fn jump_number(self, index: nat) -> Option<(Seq<char>, bool)> {
        match self.nav.jump {
            Some(jump) => Some(
                (self.pane_number(index), begins_with(self.pane_number(index), jump.buffer)),
            ),
            None => None,
        }
    }

    /// One more digit. A single row left is jumped to at once; with none left the typing
    /// starts over.
    pub open spec fn push_jump_digit(self, digit: char) -> StateV {
        match self.nav.jump {
            None => self,
            Some(jump) => {
                let buffer = jump.buffer.push(digit);
                let count = self.list.selectable.len();
                let first = first_row(count, 0, buffer);
                if first >= count {
                    self.with_jump(Some(JumpStateV { buffer: Seq::empty() }))
                } else if first_row(count, first + 1, buffer) < count {
                    self.with_jump(Some(JumpStateV { buffer }))
                } else {
                    self.with_jump(Some(JumpStateV { buffer })).jump_to(first as usize)
                }
            },
        }
    }

    /// A key in the number jump sub-mode.
    pub open spec fn jump_key(self, key: Key) -> StateV {
        if key.hard() {
            self.leave_nav_mode()
        } else {
            match key.bare {
                BareKey::Esc => self.with_jump(None),
                BareKey::Backspace => match self.nav.jump {
                    Some(jump) => self.with_jump(
                        Some(
                            JumpStateV {
                                buffer: if jump.buffer.len() > 0 {
                                    jump.buffer.drop_last()
                                } else {
                                    jump.buffer
                                },
                            },
                        ),
                    ),
                    None => self,
                },
                BareKey::Char(c) => if '0' <= c <= '9' {
                    self.push_jump_digit(c)
                } else {
                    self.leave_nav_mode()
                },
                _ => self.leave_nav_mode(),
            }
        }
    }
}

impl State {
    pub fn enter_jump(&mut self)
        ensures
            final(self)@ == old(self)@.enter_jump(),
    {
        self.nav.jump = Some(JumpState { buffer: String::new() });
    }

    /// The width of the number column.
    pub fn pane_number_width(&self) -> (r: usize)
        ensures
            r == digits(self@.list.selectable.len()).len(),
    {
        let count = decimal(self.list.selectable.len() as u128);
        char_count(count.as_str())
    }

    /// The number of the row at `index`.
    pub fn pane_number(&self, index: usize) -> (r: String)
        ensures
            r@ == self@.pane_number(index as nat),
    {
        let spelled = decimal(index as u128 + 1);
        let width = self.pane_number_width();
        let len = char_count(spelled.as_str());
        let mut out = repeat('0', width.saturating_sub(len));
        out.push_str(spelled.as_str());
        out
    }

    pub fn jump_number(&self, index: usize) -> (r: Option<(String, bool)>)
        ensures
            r is Some == self@.jump_number(index as nat) is Some,
            r is Some ==> ((r->0).0@, (r->0).1) == self@.jump_number(index as nat)->0,
    {
        match &self.nav.jump {
            Some(jump) => {
                let number = self.pane_number(index);
                let matches = starts_with(number.as_str(), jump.buffer.as_str());
                Some((number, matches))
            },
            None => None,
        }
    }

    fn find_row(&self, from: usize, buffer: &str) -> (r: usize)
        requires
            from <= self.list.selectable.len(),
        ensures
            r == first_row(self@.list.selectable.len(), from as nat, buffer@),
            r <= self.list.selectable.len(),
    {
        let mut i: usize = from;
        while i < self.list.selectable.len()
            invariant
                from <= i <= self.list.selectable.len(),
                first_row(self@.list.selectable.len(), from as nat, buffer@) == first_row(
                    self@.list.selectable.len(),
                    i as nat,
                    buffer@,
                ),
            decreases self.list.selectable.len() - i,
        {
            let number = self.pane_number(i);
            if starts_with(number.as_str(), buffer) {
                return i;
            }
            i += 1;
        }
        i
    }

    fn push_jump_digit(&mut self, digit: char)
        ensures
            final(self)@ == old(self)@.push_jump_digit(digit),
    {
        let jump = match self.nav.jump.take() {
            Some(jump) => jump,
            None => {
                return ;
            },
        };
        let mut buffer = jump.buffer;
        buffer.push(digit);
        let count = self.list.selectable.len();
        let first = self.find_row(0, buffer.as_str());
        if first >= count {
            self.nav.jump = Some(JumpState { buffer: String::new() });
        } else {
            let second = self.find_row(first + 1, buffer.as_str());
            self.nav.jump = Some(JumpState { buffer });
            if second >= count {
                self.jump_to(first);
            }
        }
    }

    /// A key in the number jump sub-mode. Every key is drawn.
    pub fn handle_jump_key(&mut self, key: Key) -> (r: bool)
        ensures
            final(self)@ == old(self)@.jump_key(key),
            r,
    {
        if key.has_hard_modifier() {
            self.leave_nav_mode();
            return true;
        }
        match key.bare {
            BareKey::Esc => {
                self.nav.jump = None;
            },
            BareKey::Backspace => {
                if let Some(jump) = self.nav.jump.take() {
                    let chars = chars_of(jump.buffer.as_str());
                    let end: usize = if chars.len() > 0 {
                        chars.len() - 1
                    } else {
                        0
                    };
                    let buffer = slice_of(&chars, 0, end);
                    assert(buffer@ =~= if chars@.len() > 0 {
                        chars@.drop_last()
                    } else {
                        chars@
                    });
                    self.nav.jump = Some(JumpState { buffer });
                }
            },
            BareKey::Char(c) => {
                if '0' <= c && c <= '9' {
                    self.push_jump_digit(c);
                } else {
                    self.leave_nav_mode();
                }
            },
            _ => self.leave_nav_mode(),
        }
        true
    }
}

/// No number is a prefix of another one, so typing a whole number always decides.
pub proof fn law_numbers_prefix_free(count: nat, i: nat, j: nat)
    requires
        i < count,
        j < count,
        begins_with(row_number(count, i), row_number(count, j)),
    ensures
        i == j,
{
    lemma_digits_len(i + 1, count);
    lemma_digits_len(j + 1, count);
    let a = row_number(count, i);
    let b = row_number(count, j);
    assert(a.len() == b.len());
    assert(a.take(b.len() as int) =~= a);
    lemma_row_value(count, i);
    lemma_row_value(count, j);
}

/// Every number has the same length.
pub proof fn law_numbers_aligned(count: nat, i: nat)
    requires
        i < count,
    ensures
        row_number(count, i).len() == digits(count).len(),
{
    lemma_digits_len(i + 1, count);
}

proof fn lemma_row_value(count: nat, i: nat)
    requires
        i < count,
    ensures
        crate::text::number(row_number(count, i)) == i + 1,
{
    lemma_digits_len(i + 1, count);
    lemma_number_of_digits(i + 1);
    lemma_leading_zeros((digits(count).len() - digits(i + 1).len()) as nat, digits(
        i + 1,
    ));
}

} // verus!

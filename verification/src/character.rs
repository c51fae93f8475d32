//! The character and what the buttons do to it.

use crate::decimal::{decimal, write_decimal};
use crate::save_file::save_text;
use vstd::prelude::*;

verus! {

/// Slot of the health pool.
pub const HEALTH: usize = 0;

/// Slot of the qi pool.
pub const QI: usize = 1;

/// Slot of the shell pool.
pub const SHELL: usize = 2;

/// One counter per pool, by slot.
pub type Stats = [u16; 3];

/// What a press of a button asks for.
#[derive(Debug, Clone, Copy, PartialEq, Eq, Structural)]
pub enum AppMessage {
    UseQi,
    ResetQi,
    ResetHealth,
    IncHealth,
    DecHealth,
    UseShell,
    ResetShell,
    Save,
}

/// A character: a name, and for each pool what is left and what it holds
/// when full.
#[derive(Debug)]
pub struct Character {
    name: String,
    curr_values: Stats,
    max_values: Stats,
}

/// The mathematical content of a character.
pub struct Sheet {
    pub name: Seq<char>,
    pub current: Seq<int>,
    pub maximum: Seq<int>,
}

impl Sheet {
    /// Three counters of each sort, each one a `u16`.
    pub open spec fn well_formed(self) -> bool {
        &&& self.current.len() == 3
        &&& self.maximum.len() == 3
        &&& forall|k: int| 0 <= k < 3 ==> 0 <= #[trigger] self.current[k] <= u16::MAX
        &&& forall|k: int| 0 <= k < 3 ==> 0 <= #[trigger] self.maximum[k] <= u16::MAX
    }

    /// No pool holds more than its maximum.
    pub open spec fn within_limits(self) -> bool {
        forall|k: int| 0 <= k < 3 ==> #[trigger] self.current[k] <= self.maximum[k]
    }

    /// One point of pool `k` is used up, if any is left.
    pub open spec fn spend(self, k: int) -> Sheet {
        let left = if self.current[k] >= 1 { self.current[k] - 1 } else { 0 };
        Sheet { current: self.current.update(k, left), ..self }
    }

    /// Pool `k` gains one point, and holds its maximum at most.
    pub open spec fn gain(self, k: int) -> Sheet {
        let more = if self.current[k] + 1 <= self.maximum[k] {
            self.current[k] + 1
        } else {
            self.maximum[k]
        };
        Sheet { current: self.current.update(k, more), ..self }
    }

    /// Pool `k` is full again.
    pub open spec fn refill(self, k: int) -> Sheet {
        Sheet { current: self.current.update(k, self.maximum[k]), ..self }
    }

    /// The sheet after a message. Saving changes nothing.
    pub open spec fn step(self, m: AppMessage) -> Sheet {
        match m {
            AppMessage::UseQi => self.spend(QI as int),
            AppMessage::ResetQi => self.refill(QI as int),
            AppMessage::ResetHealth => self.refill(HEALTH as int),
            AppMessage::IncHealth => self.gain(HEALTH as int),
            AppMessage::DecHealth => self.spend(HEALTH as int),
            AppMessage::UseShell => self.spend(SHELL as int),
            AppMessage::ResetShell => self.refill(SHELL as int),
            AppMessage::Save => self,
        }
    }
}

/// A message leaves the name and the maxima as they are, and every counter
/// within the range of a `u16`: none falls below zero.
pub proof fn lemma_step_well_formed(s: Sheet, m: AppMessage)
    requires
        s.well_formed(),
    ensures
        s.step(m).well_formed(),
        s.step(m).name == s.name,
        s.step(m).maximum == s.maximum,
{
}

/// Where no pool holds more than its maximum, none does after a message.
pub proof fn lemma_step_within_limits(s: Sheet, m: AppMessage)
    requires
        s.well_formed(),
        s.within_limits(),
    ensures
        s.step(m).within_limits(),
{
}

/// After a reset the pool holds its maximum; after a gain it holds its
/// maximum at most; after a use it holds one less, or nothing where nothing
/// was left. The other pools are not touched.
pub proof fn lemma_pool_after(s: Sheet, k: int)
    requires
        s.well_formed(),
        0 <= k < 3,
    ensures
        s.refill(k).current[k] == s.maximum[k],
        s.gain(k).current[k] <= s.maximum[k],
        s.gain(k).current[k] == s.current[k] + 1 || s.gain(k).current[k] == s.maximum[k],
        0 <= s.spend(k).current[k] <= s.current[k],
        s.spend(k).current[k] == s.current[k] - 1 || s.spend(k).current[k] == 0,
        forall|j: int|
            0 <= j < 3 && j != k ==> {
                &&& #[trigger] s.refill(k).current[j] == s.current[j]
                &&& #[trigger] s.gain(k).current[j] == s.current[j]
                &&& #[trigger] s.spend(k).current[j] == s.current[j]
            },
{
}

/// The counters of the three pools as numbers, by slot.
pub open spec fn counters(stats: Stats) -> Seq<int> {
    stats@.map_values(|v: u16| v as int)
}

/// The word that the window shows before what is left of pool `k`.
pub open spec fn pool_title(k: int) -> Seq<char> {
    if k == HEALTH {
        "Health: "@
    } else if k == QI {
        "Qi: "@
    } else {
        "Shell: "@
    }
}

/// What a message leaves for the caller to do.
#[derive(Debug)]
pub enum Effect {
    /// Nothing.
    Idle,
    /// Write this text to the save file.
    Write(String),
}

impl View for Character {
    type V = Sheet;

    closed spec fn view(&self) -> Sheet {
        Sheet {
            name: self.name@,
            current: counters(self.curr_values),
            maximum: counters(self.max_values),
        }
    }
}

impl Character {
    /// A character with the given maxima, current values and name. Nothing
    /// is asked of the values: a pool may hold more than its maximum.
    pub fn new(max_values: Stats, curr_values: Stats, name: String) -> (c: Character)
        ensures
            c@ == (Sheet {
                name: name@,
                current: counters(curr_values),
                maximum: counters(max_values),
            }),
            c@.well_formed(),
    {
        Character { name, curr_values, max_values }
    }

    /// Every character's sheet is well formed.
    pub proof fn lemma_well_formed(&self)
        ensures
            self@.well_formed(),
    {
    }

    /// The name, which is the window's title.
    pub fn title(&self) -> (out: String)
        ensures
            out@ == self@.name,
    {
        self.name.clone()
    }

    /// The name.
    pub fn name(&self) -> (out: &str)
        ensures
            out@ == self@.name,
    {
        self.name.as_str()
    }

    /// What is left in pool `k`.
    pub fn current(&self, k: usize) -> (v: u16)
        requires
            k < 3,
        ensures
            v == self@.current[k as int],
    {
        self.curr_values[k]
    }

    /// What pool `k` holds when full.
    pub fn maximum(&self, k: usize) -> (v: u16)
        requires
            k < 3,
        ensures
            v == self@.maximum[k as int],
    {
        self.max_values[k]
    }

    /// Whether no pool holds more than its maximum.
    pub fn is_within_limits(&self) -> (b: bool)
        ensures
            b == self@.within_limits(),
    {
        let b = self.curr_values[HEALTH] <= self.max_values[HEALTH] && self.curr_values[QI]
            <= self.max_values[QI] && self.curr_values[SHELL] <= self.max_values[SHELL];
        proof {
            assert(self@.current[0] == self.curr_values[0]);
            assert(self@.current[1] == self.curr_values[1]);
            assert(self@.current[2] == self.curr_values[2]);
        }
        b
    }

    /// Uses up one point of pool `k`; an empty pool stays empty.
    pub fn spend(&mut self, k: usize)
        requires
            k < 3,
        ensures
            final(self)@ == old(self)@.spend(k as int),
            0 <= final(self)@.current[k as int] <= old(self)@.current[k as int],
    {
        let left: u16 = if self.curr_values[k] >= 1 { self.curr_values[k] - 1 } else { 0 };
        self.curr_values[k] = left;
        assert(self@.current =~= old(self)@.current.update(k as int, left as int));
    }

    /// Adds one point to pool `k`, up to its maximum. A pool that holds more
    /// than its maximum falls back to it.
    pub fn gain(&mut self, k: usize)
        requires
            k < 3,
        ensures
            final(self)@ == old(self)@.gain(k as int),
            final(self)@.current[k as int] <= final(self)@.maximum[k as int],
    {
        let more: u16 = if self.curr_values[k] < self.max_values[k] {
            self.curr_values[k] + 1
        } else {
            self.max_values[k]
        };
        self.curr_values[k] = more;
        assert(self@.current =~= old(self)@.current.update(k as int, more as int));
    }

    /// Fills pool `k` up to its maximum.
    pub fn refill(&mut self, k: usize)
        requires
            k < 3,
        ensures
            final(self)@ == old(self)@.refill(k as int),
            final(self)@.current[k as int] == final(self)@.maximum[k as int],
    {
        let full: u16 = self.max_values[k];
        self.curr_values[k] = full;
        assert(self@.current =~= old(self)@.current.update(k as int, full as int));
    }

    /// What the window shows for pool `k`: its title and what is left.
    pub fn label(&self, k: usize) -> (out: String)
        requires
            k < 3,
        ensures
            out@ == pool_title(k as int) + decimal(self@.current[k as int] as nat),
    {
        let title: &str = if k == HEALTH {
            "Health: "
        } else if k == QI {
            "Qi: "
        } else {
            "Shell: "
        };
        let mut out = title.to_owned();
        write_decimal(&mut out, self.curr_values[k]);
        out
    }

    /// Handles a message: changes the pool that it names, or, for `Save`,
    /// changes nothing and hands back the text to write.
    pub fn update(&mut self, m: AppMessage) -> (effect: Effect)
        ensures
            final(self)@ == old(self)@.step(m),
            final(self)@.well_formed(),
            final(self)@.name == old(self)@.name,
            final(self)@.maximum == old(self)@.maximum,
            old(self)@.within_limits() ==> final(self)@.within_limits(),
            m == AppMessage::ResetHealth ==> final(self)@.current[HEALTH as int]
                == final(self)@.maximum[HEALTH as int],
            m == AppMessage::ResetQi ==> final(self)@.current[QI as int]
                == final(self)@.maximum[QI as int],
            m == AppMessage::ResetShell ==> final(self)@.current[SHELL as int]
                == final(self)@.maximum[SHELL as int],
            m == AppMessage::IncHealth ==> final(self)@.current[HEALTH as int]
                <= final(self)@.maximum[HEALTH as int],
            forall|k: int| 0 <= k < 3 ==> 0 <= #[trigger] final(self)@.current[k],
            match effect {
                Effect::Idle => m != AppMessage::Save,
                Effect::Write(text) => m == AppMessage::Save && text@ == save_text(old(self)@),
            },
    {
        proof {
            lemma_step_well_formed(self@, m);
            if self@.within_limits() {
                lemma_step_within_limits(self@, m);
            }
        }
        match m {
            AppMessage::UseQi => self.spend(QI),
            AppMessage::ResetQi => self.refill(QI),
            AppMessage::DecHealth => self.spend(HEALTH),
            AppMessage::IncHealth => self.gain(HEALTH),
            AppMessage::ResetHealth => self.refill(HEALTH),
            AppMessage::UseShell => self.spend(SHELL),
            AppMessage::ResetShell => self.refill(SHELL),
            AppMessage::Save => {
                return Effect::Write(self.save());
            },
        }
        Effect::Idle
    }
}

} // verus!

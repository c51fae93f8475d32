//! The save file: seven lines, the name and then for each pool its maximum
//! and what is left of it.

use crate::character::{Character, Sheet, Stats, HEALTH, QI, SHELL};
use crate::decimal::{
    decimal, is_digit, lemma_decimal_denotes, lemma_parse_decimal, parse_u16, parsed_u16,
    write_decimal, NumberError,
};
use crate::lines::{
    is_plain_line, join_lines, lemma_join_push, lemma_lines_of_joined, lines, split_lines,
};
use vstd::prelude::*;

verus! {

/// The lines of the save file, in their order.
#[derive(Debug, Clone, Copy, PartialEq, Eq, Structural)]
pub enum Field {
    Name,
    MaxHealth,
    CurrHealth,
    MaxQi,
    CurrQi,
    MaxShell,
    CurrShell,
}

impl Field {
    /// The place of the field's line in the file, counted from zero.
    pub open spec fn line(self) -> int {
        match self {
            Field::Name => 0,
            Field::MaxHealth => 1,
            Field::CurrHealth => 2,
            Field::MaxQi => 3,
            Field::CurrQi => 4,
            Field::MaxShell => 5,
            Field::CurrShell => 6,
        }
    }

    /// The field whose line stands at place `i`.
    pub open spec fn at(i: int) -> Field {
        if i <= 0 {
            Field::Name
        } else if i == 1 {
            Field::MaxHealth
        } else if i == 2 {
            Field::CurrHealth
        } else if i == 3 {
            Field::MaxQi
        } else if i == 4 {
            Field::CurrQi
        } else if i == 5 {
            Field::MaxShell
        } else {
            Field::CurrShell
        }
    }

    /// The place of the field's line in the file, counted from zero.
    pub fn index(self) -> (i: usize)
        ensures
            i == self.line(),
            i < 7,
            Field::at(i as int) == self,
    {
        match self {
            Field::Name => 0,
            Field::MaxHealth => 1,
            Field::CurrHealth => 2,
            Field::MaxQi => 3,
            Field::CurrQi => 4,
            Field::MaxShell => 5,
            Field::CurrShell => 6,
        }
    }
}

/// Why a text is no save file.
#[derive(Debug, Clone, Copy, PartialEq, Eq, Structural)]
pub enum LoadError {
    /// The text ends before the line of this field.
    Missing(Field),
    /// The line of this field is no numeral of a counter.
    Invalid(Field, NumberError),
}

/// The seven lines of a sheet's save file: the name, then for each pool the
/// numeral of its maximum and that of what is left.
pub open spec fn save_lines(s: Sheet) -> Seq<Seq<char>> {
    seq![
        s.name,
        decimal(s.maximum[0] as nat),
        decimal(s.current[0] as nat),
        decimal(s.maximum[1] as nat),
        decimal(s.current[1] as nat),
        decimal(s.maximum[2] as nat),
        decimal(s.current[2] as nat),
    ]
}

/// The save file of a sheet: its seven lines, each followed by a line feed.
pub open spec fn save_text(s: Sheet) -> Seq<char> {
    join_lines(save_lines(s))
}

/// What is wrong with the line at place `i`, if anything: it is missing, or
/// it is not the first and does not read as a counter.
pub open spec fn fault_at(ls: Seq<Seq<char>>, i: int) -> Option<LoadError> {
    if i >= ls.len() {
        Some(LoadError::Missing(Field::at(i)))
    } else if i >= 1 && parsed_u16(ls[i]) is Err {
        Some(LoadError::Invalid(Field::at(i), parsed_u16(ls[i])->Err_0))
    } else {
        None
    }
}

/// The fault of the first faulty line among those at places `from` to six.
pub open spec fn first_fault(ls: Seq<Seq<char>>, from: int) -> Option<LoadError>
    decreases 7 - from,
{
    if from >= 7 {
        None
    } else if fault_at(ls, from) is Some {
        fault_at(ls, from)
    } else {
        first_fault(ls, from + 1)
    }
}

/// The counter that the line at place `i` reads as.
pub open spec fn counter_at(ls: Seq<Seq<char>>, i: int) -> int {
    parsed_u16(ls[i])->Ok_0 as int
}

/// What a text loads as. Lines after the seventh are not looked at, and
/// nothing is asked of how the counters compare.
pub open spec fn loaded(text: Seq<char>) -> Result<Sheet, LoadError> {
    let ls = lines(text);
    match first_fault(ls, 0) {
        Some(e) => Err(e),
        None => Ok(
            Sheet {
                name: ls[0],
                current: seq![counter_at(ls, 2), counter_at(ls, 4), counter_at(ls, 6)],
                maximum: seq![counter_at(ls, 1), counter_at(ls, 3), counter_at(ls, 5)],
            },
        ),
    }
}

/// A name that the save file can hold: one plain line.
pub open spec fn is_storable_name(name: Seq<char>) -> bool {
    is_plain_line(name)
}

/// The numeral of a counter is a plain line.
pub proof fn lemma_decimal_is_plain(n: nat)
    ensures
        is_plain_line(decimal(n)),
{
    lemma_decimal_denotes(n);
    let s = decimal(n);
    assert forall|j: int| 0 <= j < s.len() implies #[trigger] s[j] != '\n' by {
        assert(is_digit(s[j]));
    }
    assert(is_digit(s.last()));
}

/// Saving a sheet and loading the text gives the sheet back: the same name,
/// the same maxima and the same current values, whenever the name is one
/// that the file can hold.
pub proof fn lemma_save_then_load(s: Sheet)
    requires
        s.well_formed(),
        is_storable_name(s.name),
    ensures
        loaded(save_text(s)) == Ok::<Sheet, LoadError>(s),
{
    let ls = save_lines(s);
    lemma_decimal_is_plain(s.maximum[0] as nat);
    lemma_decimal_is_plain(s.current[0] as nat);
    lemma_decimal_is_plain(s.maximum[1] as nat);
    lemma_decimal_is_plain(s.current[1] as nat);
    lemma_decimal_is_plain(s.maximum[2] as nat);
    lemma_decimal_is_plain(s.current[2] as nat);
    lemma_lines_of_joined(ls);
    lemma_parse_decimal(s.maximum[0] as u16);
    lemma_parse_decimal(s.current[0] as u16);
    lemma_parse_decimal(s.maximum[1] as u16);
    lemma_parse_decimal(s.current[1] as u16);
    lemma_parse_decimal(s.maximum[2] as u16);
    lemma_parse_decimal(s.current[2] as u16);
    reveal_with_fuel(first_fault, 8);
    assert(first_fault(ls, 0) is None);
    let back = loaded(save_text(s))->Ok_0;
    assert(back.current =~= s.current);
    assert(back.maximum =~= s.maximum);
}

/// Appends the line of a counter: its numeral and a line feed.
fn write_counter(out: &mut String, v: u16)
    ensures
        final(out)@ == old(out)@ + decimal(v as nat).push('\n'),
{
    write_decimal(out, v);
    out.append("\n");
    proof {
        reveal_strlit("\n");
        assert(out@ =~= old(out)@ + decimal(v as nat).push('\n'));
    }
}

/// The texts of a list of lines.
pub open spec fn line_views(ls: Seq<&str>) -> Seq<Seq<char>> {
    ls.map_values(|l: &str| l@)
}

/// Reads the counter of `field` from the lines of a text.
fn read_counter(ls: &Vec<&str>, field: Field) -> (r: Result<u16, LoadError>)
    requires
        field != Field::Name,
    ensures
        match r {
            Ok(v) => fault_at(line_views(ls@), field.line()) is None && counter_at(
                line_views(ls@),
                field.line(),
            ) == v,
            Err(e) => fault_at(line_views(ls@), field.line()) == Some(e),
        },
{
    let i: usize = field.index();
    if i >= ls.len() {
        return Err(LoadError::Missing(field));
    }
    match parse_u16(ls[i]) {
        Ok(v) => Ok(v),
        Err(e) => Err(LoadError::Invalid(field, e)),
    }
}

impl Character {
    /// The text of the save file for this character.
    pub fn save(&self) -> (out: String)
        ensures
            out@ == save_text(self@),
            is_storable_name(self@.name) ==> loaded(out@) == Ok::<Sheet, LoadError>(self@),
    {
        proof {
            self.lemma_well_formed();
            if is_storable_name(self@.name) {
                lemma_save_then_load(self@);
            }
        }
        let counters: [u16; 6] = [
            self.maximum(HEALTH),
            self.current(HEALTH),
            self.maximum(QI),
            self.current(QI),
            self.maximum(SHELL),
            self.current(SHELL),
        ];
        let ghost ls = save_lines(self@);
        let mut out = self.title();
        out.append("\n");
        proof {
            reveal_strlit("\n");
            lemma_join_push(ls.take(0), ls[0]);
            assert(join_lines(ls.take(0)) =~= Seq::<char>::empty());
            assert(ls.take(1) =~= ls.take(0).push(ls[0]));
            assert(out@ =~= join_lines(ls.take(1)));
        }
        for i in 0..6
            invariant
                ls == save_lines(self@),
                out@ == join_lines(ls.take(i + 1)),
                forall|j: int| 0 <= j < 6 ==> ls[j + 1] == decimal(#[trigger] counters[j] as nat),
        {
            write_counter(&mut out, counters[i]);
            proof {
                lemma_join_push(ls.take(i + 1), ls[i + 1]);
                assert(ls.take(i + 2) =~= ls.take(i + 1).push(ls[i + 1]));
            }
        }
        assert(ls.take(7) =~= ls);
        out
    }

    /// Reads a character from the text of a save file. It fails at the first
    /// line, of the seven, that is missing or, after the name, is no counter.
    pub fn load(text: &str) -> (r: Result<Character, LoadError>)
        ensures
            match r {
                Ok(c) => loaded(text@) == Ok::<Sheet, LoadError>(c@),
                Err(e) => loaded(text@) == Err::<Sheet, LoadError>(e),
            },
            r is Ok <==> lines(text@).len() >= 7 && forall|i: int|
                1 <= i < 7 ==> parsed_u16(#[trigger] lines(text@)[i]) is Ok,
    {
        let ls = split_lines(text);
        proof {
            assert(line_views(ls@) =~= lines(text@));
            reveal_with_fuel(first_fault, 8);
        }
        if ls.len() == 0 {
            return Err(LoadError::Missing(Field::Name));
        }
        let max_health: u16 = read_counter(&ls, Field::MaxHealth)?;
        let curr_health: u16 = read_counter(&ls, Field::CurrHealth)?;
        let max_qi: u16 = read_counter(&ls, Field::MaxQi)?;
        let curr_qi: u16 = read_counter(&ls, Field::CurrQi)?;
        let max_shell: u16 = read_counter(&ls, Field::MaxShell)?;
        let curr_shell: u16 = read_counter(&ls, Field::CurrShell)?;
        let max_values: Stats = [max_health, max_qi, max_shell];
        let curr_values: Stats = [curr_health, curr_qi, curr_shell];
        let c = Character::new(max_values, curr_values, ls[0].to_owned());
        proof {
            let sheet = loaded(text@)->Ok_0;
            assert(c@.current =~= sheet.current);
            assert(c@.maximum =~= sheet.maximum);
        }
        Ok(c)
    }
}

} // verus!

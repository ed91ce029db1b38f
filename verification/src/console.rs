//! The console command parser: one line read at the prompt becomes one
//! administrative action, and the console listing renders durability-log
//! lines as rows.

use vstd::prelude::*;

use crate::text::{lemma_spec_split_len, spec_split, split_on, str_eq};

verus! {

/// A console command at the specification level, over character sequences.
pub enum SpecInstruction {
    Put(Seq<char>, Seq<char>),
    UsageError,
    Quit,
    ListRecords,
    Help,
    Unknown,
}

/// One parsed console command, ready to act on.
pub enum ConsoleAction {
    Put { key: String, value: String },
    UsageError,
    Quit,
    ListRecords,
    Help,
    Unknown,
}

impl View for ConsoleAction {
    type V = SpecInstruction;

    open spec fn view(&self) -> SpecInstruction {
        match self {
            ConsoleAction::Put { key, value } => SpecInstruction::Put(key@, value@),
            ConsoleAction::UsageError => SpecInstruction::UsageError,
            ConsoleAction::Quit => SpecInstruction::Quit,
            ConsoleAction::ListRecords => SpecInstruction::ListRecords,
            ConsoleAction::Help => SpecInstruction::Help,
            ConsoleAction::Unknown => SpecInstruction::Unknown,
        }
    }
}

/// What a console line means: the first space-separated word picks the
/// command; `put` demands exactly two further words, and an unrecognized
/// word is reported, never fatal.
pub open spec fn spec_parse_instruction(s: Seq<char>) -> SpecInstruction {
    let toks = spec_split(s, ' ');
    if toks[0] == "put"@ {
        if toks.len() == 3 {
            SpecInstruction::Put(toks[1], toks[2])
        } else {
            SpecInstruction::UsageError
        }
    } else if toks[0] == "quit"@ {
        SpecInstruction::Quit
    } else if toks[0] == "ls"@ {
        SpecInstruction::ListRecords
    } else if toks[0] == "help"@ {
        SpecInstruction::Help
    } else {
        SpecInstruction::Unknown
    }
}

/// Parses one console line into the action it asks for.
pub fn parse_instruction(command: &str) -> (r: ConsoleAction)
    ensures
        r@ == spec_parse_instruction(command@),
{
    let toks = split_on(command, ' ');
    proof {
        lemma_spec_split_len(command@, ' ');
    }
    if str_eq(toks[0].as_str(), "put") {
        if toks.len() == 3 {
            ConsoleAction::Put { key: toks[1].clone(), value: toks[2].clone() }
        } else {
            ConsoleAction::UsageError
        }
    } else if str_eq(toks[0].as_str(), "quit") {
        ConsoleAction::Quit
    } else if str_eq(toks[0].as_str(), "ls") {
        ConsoleAction::ListRecords
    } else if str_eq(toks[0].as_str(), "help") {
        ConsoleAction::Help
    } else {
        ConsoleAction::Unknown
    }
}

/// The cells of one console listing row: each field between pipes, padded
/// with one space on each side.
pub open spec fn spec_row_cells(ts: Seq<Seq<char>>) -> Seq<char>
    decreases ts.len(),
{
    if ts.len() == 0 {
        Seq::empty()
    } else {
        spec_row_cells(ts.drop_last()) + "| "@ + ts.last() + " "@
    }
}

/// One console listing row for a durability-log line: its comma-separated
/// fields between pipes, closed off and ended by a newline.
pub open spec fn spec_row(line: Seq<char>) -> Seq<char> {
    spec_row_cells(spec_split(line, ',')) + "|\n"@
}

/// Renders one durability-log line as a console listing row.
pub fn format_row(line: &str) -> (r: String)
    ensures
        r@ == spec_row(line@),
{
    let fields = split_on(line, ',');
    let ghost ts = fields.deep_view();
    let mut out = String::new();
    let mut i: usize = 0;
    while i < fields.len()
        invariant
            i <= fields.len(),
            ts == fields.deep_view(),
            ts.len() == fields.len(),
            out@ == spec_row_cells(ts.take(i as int)),
        decreases fields.len() - i,
    {
        out.append("| ");
        out.append(fields[i].as_str());
        out.append(" ");
        proof {
            assert(ts.take(i as int + 1).drop_last() =~= ts.take(i as int));
            assert(ts.take(i as int + 1).last() == ts[i as int]);
            assert(out@ =~= spec_row_cells(ts.take(i as int + 1)));
        }
        i = i + 1;
    }
    out.append("|\n");
    proof {
        assert(ts.take(fields.len() as int) =~= ts);
        assert(out@ =~= spec_row(line@));
    }
    out
}

} // verus!

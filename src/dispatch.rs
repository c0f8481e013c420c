use vstd::prelude::*;

use crate::command::{parse_line, Command};
use crate::controller::{all_wf, at_index, ChannelState, Controller, UpDownPin};

verus! {

/// The answer to one line.
#[derive(Debug, Clone, Copy, PartialEq, Eq, Structural)]
pub enum Reply {
    /// The command was carried out.
    Done,
    /// The line asked for the help text.
    Help,
    /// The line spelled no command.
    UnknownCommand,
}

/// The channels once `command` has been carried out on `s`.
pub open spec fn executed(s: Seq<ChannelState>, command: Command) -> Seq<ChannelState> {
    match command {
        Command::Stop { index: None } => s.map_values(|c: ChannelState| c.stopped()),
        Command::Stop { index: Some(i) } => at_index(s, i as usize, s[i as int].stopped()),
        Command::Up { index } => at_index(s, index as usize, s[index as int].going_up()),
        Command::Down { index } => at_index(s, index as usize, s[index as int].going_down()),
        Command::Limit { index, up_limit, down_limit } => at_index(
            s,
            index as usize,
            s[index as int].limited(up_limit, down_limit),
        ),
        Command::Help => s,
    }
}

/// The answer to a line that spelled `command`.
pub open spec fn reply_to(command: Command) -> Reply {
    match command {
        Command::Help => Reply::Help,
        _ => Reply::Done,
    }
}

/// Carries out `command` on the channels of `controller`.
pub fn execute<P: UpDownPin, const N: usize>(controller: &mut Controller<P, N>, command: Command) -> (r: Reply)
    requires
        all_wf(old(controller)@),
    ensures
        final(controller)@ == executed(old(controller)@, command),
        all_wf(final(controller)@),
        r == reply_to(command),
{
    match command {
        Command::Stop { index: None } => {
            controller.stop_all();
            Reply::Done
        },
        Command::Stop { index: Some(i) } => {
            controller.stop(i as usize);
            Reply::Done
        },
        Command::Up { index } => {
            controller.up(index as usize);
            Reply::Done
        },
        Command::Down { index } => {
            controller.down(index as usize);
            Reply::Done
        },
        Command::Limit { index, up_limit, down_limit } => {
            controller.limit(index as usize, up_limit, down_limit);
            Reply::Done
        },
        Command::Help => Reply::Help,
    }
}

/// Reads one line and carries out the command it spells; a line that spells
/// none changes nothing.
pub fn handle_line<P: UpDownPin, const N: usize>(controller: &mut Controller<P, N>, line: &[u8]) -> (r: Reply)
    requires
        all_wf(old(controller)@),
    ensures
        all_wf(final(controller)@),
        match parse_line(line@) {
            Some(c) => final(controller)@ == executed(old(controller)@, c) && r == reply_to(c),
            None => final(controller)@ == old(controller)@ && r == Reply::UnknownCommand,
        },
{
    match Command::parse(line) {
        Ok(command) => execute(controller, command),
        Err(()) => Reply::UnknownCommand,
    }
}

/// A command whose index names no channel changes no channel.
pub proof fn lemma_out_of_range_command(s: Seq<ChannelState>, command: Command)
    requires
        match command {
            Command::Stop { index: Some(i) } => i as int >= s.len(),
            Command::Up { index } => index as int >= s.len(),
            Command::Down { index } => index as int >= s.len(),
            Command::Limit { index, .. } => index as int >= s.len(),
            _ => false,
        },
    ensures
        executed(s, command) == s,
{
}

} // verus!

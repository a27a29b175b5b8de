//! The text of the commands sent to a rigctl server: set the frequency,
//! set the mode and passband.
use vstd::prelude::*;

use crate::text::{decimal, law_parse_renders, parse_u32_spec, render_u32};

verus! {

/// The rigctl command that tunes the radio to `frequency` hertz.
pub open spec fn frequency_command(frequency: nat) -> Seq<char> {
    seq!['F', ' '] + decimal(frequency) + seq!['\n']
}

/// The rigctl command that sets the mode and the passband in hertz.
pub open spec fn mode_command(mode: Seq<char>, bandwidth: nat) -> Seq<char> {
    seq!['M', ' '] + mode + seq![' '] + decimal(bandwidth) + seq!['\n']
}

/// The command that sets the radio's frequency: `F <hertz>` and a newline.
pub fn set_frequency(frequency: u32) -> (command: String)
    ensures
        command@ == frequency_command(frequency as nat),
{
    proof {
        reveal_strlit("F ");
        reveal_strlit("\n");
    }
    let mut command = String::from_str("F ");
    let digits = render_u32(frequency);
    command.append(digits.as_str());
    command.append("\n");
    command
}

/// The command that sets the radio's mode and passband:
/// `M <mode> <hertz>` and a newline.
pub fn set_mode_bandwidth(mode: &str, bandwidth: u32) -> (command: String)
    ensures
        command@ == mode_command(mode@, bandwidth as nat),
{
    proof {
        reveal_strlit("M ");
        reveal_strlit(" ");
        reveal_strlit("\n");
    }
    let mut command = String::from_str("M ");
    command.append(mode);
    command.append(" ");
    let digits = render_u32(bandwidth);
    command.append(digits.as_str());
    command.append("\n");
    command
}

/// A rigctl server that reads the number in a frequency command reads the
/// frequency that was set.
pub proof fn law_frequency_command_reads_back(frequency: u32)
    ensures
        ({
            let c = frequency_command(frequency as nat);
            parse_u32_spec(c.subrange(2, c.len() - 1)) == Some(frequency)
        }),
{
    let c = frequency_command(frequency as nat);
    assert(c.subrange(2, c.len() - 1) =~= decimal(frequency as nat));
    law_parse_renders(frequency);
}

/// The same for the passband in a mode command, whatever the mode.
pub proof fn law_mode_command_reads_back(mode: Seq<char>, bandwidth: u32)
    ensures
        ({
            let c = mode_command(mode, bandwidth as nat);
            parse_u32_spec(c.subrange(mode.len() as int + 3, c.len() - 1)) == Some(bandwidth)
        }),
{
    let c = mode_command(mode, bandwidth as nat);
    assert(c.subrange(mode.len() as int + 3, c.len() - 1) =~= decimal(bandwidth as nat));
    law_parse_renders(bandwidth);
}


/// The mode command is `M`, a space, the mode exactly as given, a space,
/// the passband's decimal text and a newline.
pub proof fn law_mode_command_layout(mode: Seq<char>, bandwidth: nat)
    ensures
        ({
            let c = mode_command(mode, bandwidth);
            let m = mode.len() as int;
            &&& c.len() == m + decimal(bandwidth).len() + 4
            &&& c[0] == 'M'
            &&& c[1] == ' '
            &&& c.subrange(2, 2 + m) == mode
            &&& c[2 + m] == ' '
            &&& c.subrange(3 + m, c.len() - 1) == decimal(bandwidth)
            &&& c[c.len() - 1] == '\n'
        }),
{
    let c = mode_command(mode, bandwidth);
    let m = mode.len() as int;
    assert(c.subrange(2, 2 + m) =~= mode);
    assert(c.subrange(3 + m, c.len() - 1) =~= decimal(bandwidth));
}

/// The frequency command is `F`, a space, the frequency's decimal text and
/// a newline.
pub proof fn law_frequency_command_layout(frequency: nat)
    ensures
        ({
            let c = frequency_command(frequency);
            &&& c.len() == decimal(frequency).len() + 3
            &&& c[0] == 'F'
            &&& c[1] == ' '
            &&& c.subrange(2, c.len() - 1) == decimal(frequency)
            &&& c[c.len() - 1] == '\n'
        }),
{
    let c = frequency_command(frequency);
    assert(c.subrange(2, c.len() - 1) =~= decimal(frequency));
}

} // verus!

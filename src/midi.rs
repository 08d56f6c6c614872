//! Decoding of three-byte MIDI channel messages.
use vstd::prelude::*;

verus! {

/// A decoded channel message.
#[derive(Clone, Copy, Debug, PartialEq, Eq)]
pub enum MidiCommand {
    NoteOn { channel: u8, key: u8, velocity: u8 },
    NoteOff { channel: u8, key: u8, velocity: u8 },
    AllNotesOff { channel: u8, velocity: u8 },
    AllSoundOff { channel: u8, velocity: u8 },
    Unknown,
}

/// A command and the sample time at which it takes effect.
#[derive(Clone, Copy, Debug)]
pub struct TimedMidiCommand {
    pub time: usize,
    pub command: MidiCommand,
}

/// The command that a three-byte message holds: note off (status `0x8n`),
/// note on (`0x9n`), and the controller messages all sound off (`0xBn`, 120)
/// and all notes off (`0xBn`, 123); anything else is unknown.
pub open spec fn midi_command(d: Seq<u8>) -> MidiCommand {
    let status = d[0] & 0xF0u8;
    let channel = d[0] & 0x0Fu8;
    if status == 0x80 {
        MidiCommand::NoteOff { channel, key: d[1], velocity: d[2] }
    } else if status == 0x90 {
        MidiCommand::NoteOn { channel, key: d[1], velocity: d[2] }
    } else if status == 0xB0 && d[1] == 120 {
        MidiCommand::AllSoundOff { channel, velocity: d[2] }
    } else if status == 0xB0 && d[1] == 123 {
        MidiCommand::AllNotesOff { channel, velocity: d[2] }
    } else {
        MidiCommand::Unknown
    }
}

impl MidiCommand {
    /// Decodes a three-byte message.
    pub fn from_data(data: &[u8; 3]) -> (r: MidiCommand)
        ensures
            r == midi_command(data@),
    {
        let channel = data[0] & 0x0F;
        match data[0] & 0xF0 {
            0x80 => MidiCommand::NoteOff { channel, key: data[1], velocity: data[2] },
            0x90 => MidiCommand::NoteOn { channel, key: data[1], velocity: data[2] },
            0xB0 => match data[1] {
                120 => MidiCommand::AllSoundOff { channel, velocity: data[2] },
                123 => MidiCommand::AllNotesOff { channel, velocity: data[2] },
                _ => MidiCommand::Unknown,
            },
            _ => MidiCommand::Unknown,
        }
    }
}

} // verus!

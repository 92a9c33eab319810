//! The adapter between decoded wire frames and strongly-typed game
//! commands: command codes and argument layouts for the game-level message
//! set, together with the proof that encoding then decoding is lossless.

use vstd::prelude::*;

use crate::card::{Card, Color, Value};
use crate::messages::GameCommand;
use crate::packet::{DELIMITER, spec_frames};

verus! {

/// Byte that encodes a play color.
pub open spec fn spec_color_byte(c: Color) -> u8 {
    match c {
        Color::Red => 0u8,
        Color::Yellow => 1u8,
        Color::Green => 2u8,
        Color::Blue => 3u8,
        Color::Black => 4u8,
    }
}

/// Color denoted by a byte, if any.
pub open spec fn spec_color_from_byte(b: u8) -> Option<Color> {
    if b == 0 {
        Some(Color::Red)
    } else if b == 1 {
        Some(Color::Yellow)
    } else if b == 2 {
        Some(Color::Green)
    } else if b == 3 {
        Some(Color::Blue)
    } else if b == 4 {
        Some(Color::Black)
    } else {
        None
    }
}

/// Byte that encodes a card value.
pub open spec fn spec_value_byte(v: Value) -> u8 {
    match v {
        Value::Zero => 0u8,
        Value::One => 1u8,
        Value::Two => 2u8,
        Value::Three => 3u8,
        Value::Four => 4u8,
        Value::Five => 5u8,
        Value::Six => 6u8,
        Value::Seven => 7u8,
        Value::Eight => 8u8,
        Value::Nine => 9u8,
        Value::Skip => 10u8,
        Value::Reverse => 11u8,
        Value::DrawTwo => 12u8,
        Value::Wild => 13u8,
        Value::WildFour => 14u8,
    }
}

/// Value denoted by a byte, if any.
pub open spec fn spec_value_from_byte(b: u8) -> Option<Value> {
    if b == 0 {
        Some(Value::Zero)
    } else if b == 1 {
        Some(Value::One)
    } else if b == 2 {
        Some(Value::Two)
    } else if b == 3 {
        Some(Value::Three)
    } else if b == 4 {
        Some(Value::Four)
    } else if b == 5 {
        Some(Value::Five)
    } else if b == 6 {
        Some(Value::Six)
    } else if b == 7 {
        Some(Value::Seven)
    } else if b == 8 {
        Some(Value::Eight)
    } else if b == 9 {
        Some(Value::Nine)
    } else if b == 10 {
        Some(Value::Skip)
    } else if b == 11 {
        Some(Value::Reverse)
    } else if b == 12 {
        Some(Value::DrawTwo)
    } else if b == 13 {
        Some(Value::Wild)
    } else if b == 14 {
        Some(Value::WildFour)
    } else {
        None
    }
}

/// Raw frame (command code plus argument bytes, delimiter not included)
/// that carries a game command.
pub open spec fn spec_game_frame(c: GameCommand) -> Seq<u8> {
    match c {
        GameCommand::PlayCard(card) => seq![
            10u8,
            spec_color_byte(card.color),
            spec_value_byte(card.value),
        ],
        GameCommand::ColorChosen(color) => seq![11u8, spec_color_byte(color)],
        GameCommand::DrawCard => seq![12u8],
        GameCommand::Uno => seq![13u8],
        GameCommand::CounterUno => seq![14u8],
    }
}

/// Game command denoted by a raw frame, if any.
pub open spec fn spec_decode_game(frame: Seq<u8>) -> Option<GameCommand> {
    if frame.len() == 3 && frame[0] == 10 {
        match (spec_color_from_byte(frame[1]), spec_value_from_byte(frame[2])) {
            (Some(color), Some(value)) => Some(GameCommand::PlayCard(Card { color, value })),
            _ => None,
        }
    } else if frame.len() == 2 && frame[0] == 11 {
        match spec_color_from_byte(frame[1]) {
            Some(color) => Some(GameCommand::ColorChosen(color)),
            None => None,
        }
    } else if frame.len() == 1 && frame[0] == 12 {
        Some(GameCommand::DrawCard)
    } else if frame.len() == 1 && frame[0] == 13 {
        Some(GameCommand::Uno)
    } else if frame.len() == 1 && frame[0] == 14 {
        Some(GameCommand::CounterUno)
    } else {
        None
    }
}

/// Encodes a color as one byte.
pub fn color_to_byte(c: Color) -> (b: u8)
    ensures
        b == spec_color_byte(c),
{
    match c {
        Color::Red => 0,
        Color::Yellow => 1,
        Color::Green => 2,
        Color::Blue => 3,
        Color::Black => 4,
    }
}

/// Decodes a color byte.
pub fn color_from_byte(b: u8) -> (c: Option<Color>)
    ensures
        c == spec_color_from_byte(b),
{
    match b {
        0 => Some(Color::Red),
        1 => Some(Color::Yellow),
        2 => Some(Color::Green),
        3 => Some(Color::Blue),
        4 => Some(Color::Black),
        _ => None,
    }
}

/// Encodes a card value as one byte.
pub fn value_to_byte(v: Value) -> (b: u8)
    ensures
        b == spec_value_byte(v),
{
    match v {
        Value::Zero => 0,
        Value::One => 1,
        Value::Two => 2,
        Value::Three => 3,
        Value::Four => 4,
        Value::Five => 5,
        Value::Six => 6,
        Value::Seven => 7,
        Value::Eight => 8,
        Value::Nine => 9,
        Value::Skip => 10,
        Value::Reverse => 11,
        Value::DrawTwo => 12,
        Value::Wild => 13,
        Value::WildFour => 14,
    }
}

/// Decodes a card-value byte.
pub fn value_from_byte(b: u8) -> (v: Option<Value>)
    ensures
        v == spec_value_from_byte(b),
{
    match b {
        0 => Some(Value::Zero),
        1 => Some(Value::One),
        2 => Some(Value::Two),
        3 => Some(Value::Three),
        4 => Some(Value::Four),
        5 => Some(Value::Five),
        6 => Some(Value::Six),
        7 => Some(Value::Seven),
        8 => Some(Value::Eight),
        9 => Some(Value::Nine),
        10 => Some(Value::Skip),
        11 => Some(Value::Reverse),
        12 => Some(Value::DrawTwo),
        13 => Some(Value::Wild),
        14 => Some(Value::WildFour),
        _ => None,
    }
}

/// Encodes a game command as one full wire packet: command code, argument
/// bytes, then the delimiter.
pub fn encode_game_command(c: GameCommand) -> (r: Vec<u8>)
    ensures
        r@ == spec_game_frame(c) + seq![DELIMITER],
{
    let mut out: Vec<u8> = Vec::new();
    match c {
        GameCommand::PlayCard(card) => {
            out.push(10);
            out.push(color_to_byte(card.color));
            out.push(value_to_byte(card.value));
        },
        GameCommand::ColorChosen(color) => {
            out.push(11);
            out.push(color_to_byte(color));
        },
        GameCommand::DrawCard => {
            out.push(12);
        },
        GameCommand::Uno => {
            out.push(13);
        },
        GameCommand::CounterUno => {
            out.push(14);
        },
    }
    out.push(DELIMITER);
    proof {
        assert(out@ =~= spec_game_frame(c) + seq![DELIMITER]);
    }
    out
}

/// Decodes a raw frame (without its delimiter) into a game command; `None`
/// covers unknown codes and malformed argument bytes.
pub fn decode_game_command(frame: &[u8]) -> (r: Option<GameCommand>)
    ensures
        r == spec_decode_game(frame@),
{
    if frame.len() == 3 && frame[0] == 10 {
        let color = color_from_byte(frame[1]);
        let value = value_from_byte(frame[2]);
        match (color, value) {
            (Some(color), Some(value)) => Some(GameCommand::PlayCard(Card { color, value })),
            _ => None,
        }
    } else if frame.len() == 2 && frame[0] == 11 {
        match color_from_byte(frame[1]) {
            Some(color) => Some(GameCommand::ColorChosen(color)),
            None => None,
        }
    } else if frame.len() == 1 && frame[0] == 12 {
        Some(GameCommand::DrawCard)
    } else if frame.len() == 1 && frame[0] == 13 {
        Some(GameCommand::Uno)
    } else if frame.len() == 1 && frame[0] == 14 {
        Some(GameCommand::CounterUno)
    } else {
        None
    }
}

/// Encoding a game command and scanning the produced bytes recovers exactly
/// one frame, and decoding that frame yields the identical command.
pub proof fn lemma_game_command_round_trip(c: GameCommand)
    ensures
        spec_frames(spec_game_frame(c) + seq![DELIMITER], Seq::<u8>::empty()) == Some(seq![
            spec_game_frame(c),
        ]),
        spec_decode_game(spec_game_frame(c)) == Some(c),
{
    let frame = spec_game_frame(c);
    let bytes = frame + seq![DELIMITER];
    lemma_frames_single(bytes, frame);
}

/// Scanning a buffer made of one delimiter-free non-empty frame followed by
/// the delimiter yields exactly that frame.
proof fn lemma_frames_single(bytes: Seq<u8>, frame: Seq<u8>)
    requires
        bytes == frame + seq![DELIMITER],
        frame.len() >= 1,
        forall|i: int| 0 <= i < frame.len() ==> frame[i] != DELIMITER,
    ensures
        spec_frames(bytes, Seq::<u8>::empty()) == Some(seq![frame]),
{
    assert(Seq::<u8>::empty() =~= frame.subrange(0, 0));
    lemma_frames_scan(bytes, frame, frame.subrange(0, 0), 0);
    assert(bytes.skip(0) =~= bytes);
}

/// Intermediate scan states: having consumed `k` bytes of the frame, the
/// accumulator holds exactly those bytes.
proof fn lemma_frames_scan(bytes: Seq<u8>, frame: Seq<u8>, acc: Seq<u8>, k: int)
    requires
        bytes == frame + seq![DELIMITER],
        frame.len() >= 1,
        forall|i: int| 0 <= i < frame.len() ==> frame[i] != DELIMITER,
        0 <= k <= frame.len(),
        acc == frame.subrange(0, k),
    ensures
        spec_frames(bytes.skip(k), acc) == Some(seq![frame]),
    decreases frame.len() - k,
{
    let tail = bytes.skip(k);
    assert(tail.len() == frame.len() + 1 - k);
    if k == frame.len() {
        assert(tail.first() == DELIMITER);
        assert(acc =~= frame);
        assert(tail.drop_first() =~= Seq::<u8>::empty());
        assert(spec_frames(tail.drop_first(), Seq::<u8>::empty()) == Some(
            Seq::<Seq<u8>>::empty(),
        ));
        assert(seq![acc] + Seq::<Seq<u8>>::empty() =~= seq![frame]);
    } else {
        assert(tail.first() == frame[k]);
        assert(tail.first() != DELIMITER);
        assert(tail.drop_first() =~= bytes.skip(k + 1));
        assert(acc.push(frame[k]) =~= frame.subrange(0, k + 1));
        lemma_frames_scan(bytes, frame, acc.push(frame[k]), k + 1);
    }
}

} // verus!

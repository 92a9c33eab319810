use uno::adapter::{decode_game_command, encode_game_command};
use uno::card::{Card, Color, Value};
use uno::messages::GameCommand;
use uno::packet::{Args, Command, PacketError, encode_packet, parse_packet, parse_packets,
    split_frames, DELIMITER};

#[test]
fn zero_size_packet_is_a_decode_error() {
    assert!(matches!(parse_packet(vec![]), Err(PacketError::ZeroSizePacket)));
    assert!(matches!(parse_packets(&[DELIMITER]), Err(PacketError::ZeroSizePacket)));
    assert!(matches!(split_frames(&[3, DELIMITER, DELIMITER]), Err(PacketError::ZeroSizePacket)));
}

#[test]
fn parse_packet_splits_command_and_args() {
    let p = parse_packet(vec![1, 10, 20]).unwrap();
    assert_eq!(p.command, Command::CreateLobby);
    assert_eq!(p.args.as_slice(), &[10, 20]);
}

#[test]
fn unknown_command_bytes_decode_to_unknown() {
    let p = parse_packet(vec![99]).unwrap();
    assert_eq!(p.command, Command::Unknown);
    assert_eq!(p.args.as_slice(), &[] as &[u8]);
}

#[test]
fn parse_packets_produces_each_complete_frame() {
    let buffer = [1, 5, DELIMITER, 2, DELIMITER, 9];
    let packets = parse_packets(&buffer).unwrap();
    assert_eq!(packets.len(), 2);
    assert_eq!(packets[0].command, Command::CreateLobby);
    assert_eq!(packets[0].args.as_slice(), &[5]);
    assert_eq!(packets[1].command, Command::JoinLobby);
    assert_eq!(packets[1].args.as_slice(), &[] as &[u8]);
}

#[test]
fn encode_packet_frames_command_args_delimiter() {
    let args = Args::from_vec(vec![7, 8]);
    let bytes = encode_packet(Command::JoinLobby, &args);
    assert_eq!(bytes, vec![2, 7, 8, DELIMITER]);
}

#[test]
fn encode_then_parse_recovers_the_packet() {
    let args = Args::from_vec(vec![4, 5, 6]);
    let bytes = encode_packet(Command::LeaveLobby, &args);
    let packets = parse_packets(&bytes).unwrap();
    assert_eq!(packets.len(), 1);
    assert_eq!(packets[0].command, Command::LeaveLobby);
    assert_eq!(packets[0].args.as_slice(), &[4, 5, 6]);
}

#[test]
fn args_random_access_and_range_extraction() {
    let mut args = Args::new();
    args.add_byte(10);
    args.add_byte(11);
    args.add_byte(12);
    args.add_byte(13);
    assert_eq!(args.get(0), Some(&10));
    assert_eq!(args.get(3), Some(&13));
    assert_eq!(args.get(4), None);
    let taken = args.get_range(1, 3);
    assert_eq!(taken, vec![11, 12]);
    assert_eq!(args.as_slice(), &[10, 13]);
}

#[test]
fn play_card_red_five_round_trips_through_the_codec() {
    let cmd = GameCommand::PlayCard(Card { color: Color::Red, value: Value::Five });
    let bytes = encode_game_command(cmd);
    let frames = split_frames(&bytes).unwrap();
    assert_eq!(frames.len(), 1);
    let decoded = decode_game_command(frames[0].as_slice());
    assert_eq!(decoded, Some(cmd));
}

#[test]
fn every_game_command_round_trips() {
    let commands = [
        GameCommand::PlayCard(Card { color: Color::Green, value: Value::WildFour }),
        GameCommand::ColorChosen(Color::Blue),
        GameCommand::DrawCard,
        GameCommand::Uno,
        GameCommand::CounterUno,
    ];
    for cmd in commands {
        let bytes = encode_game_command(cmd);
        let frames = split_frames(&bytes).unwrap();
        assert_eq!(frames.len(), 1);
        assert_eq!(decode_game_command(frames[0].as_slice()), Some(cmd));
    }
}

#[test]
fn malformed_game_frames_decode_to_none() {
    assert_eq!(decode_game_command(&[]), None);
    assert_eq!(decode_game_command(&[10]), None);
    assert_eq!(decode_game_command(&[10, 0, 99]), None);
    assert_eq!(decode_game_command(&[11, 77]), None);
    assert_eq!(decode_game_command(&[42]), None);
}

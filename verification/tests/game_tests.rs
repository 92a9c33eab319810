use uno::card::{Card, Color, Value};
use uno::deck::Deck;
use uno::game::Game;
use uno::messages::{GameCommand, Message, Outbound};
use uno::player::{Player, PlayerId, PlayerState};

fn card(color: Color, value: Value) -> Card {
    Card { color, value }
}

fn player(id: u128, hand: Vec<Card>, state: PlayerState) -> Player {
    let mut p = Player::new(PlayerId(id));
    p.hand = hand;
    p.state = state;
    p
}

fn deck_of(cards: &[Card]) -> Deck {
    let mut d = Deck::empty();
    for c in cards {
        d.add(*c);
    }
    d
}

fn total_cards(g: &Game) -> usize {
    let mut n = g.deck.size() + g.discard.size();
    for p in g.clients.iter() {
        n += p.hand.len();
    }
    n
}

fn draw_messages_to(msgs: &[Outbound], to: PlayerId) -> usize {
    msgs.iter().filter(|m| m.to == to && matches!(m.msg, Message::DrawCard(_))).count()
}

/// A two-player table where player 1 is up, with a red five on the discard.
fn two_player_game(hand0: Vec<Card>, hand1: Vec<Card>, deck: Vec<Card>) -> Game {
    Game {
        clients: vec![
            player(1, hand0, PlayerState::PlayingCard),
            player(2, hand1, PlayerState::WaitingToPlay),
        ],
        deck: deck_of(&deck),
        discard: deck_of(&[card(Color::Red, Value::Five)]),
        turn_index: 0,
        reverse_turn: false,
        current_color: Color::Red,
    }
}

#[test]
fn skip_play_skips_the_opponent_entirely() {
    let mut g = two_player_game(
        vec![
            card(Color::Red, Value::Skip),
            card(Color::Blue, Value::Three),
            card(Color::Green, Value::Seven),
        ],
        vec![
            card(Color::Blue, Value::One),
            card(Color::Blue, Value::Two),
            card(Color::Blue, Value::Four),
        ],
        vec![card(Color::Yellow, Value::Nine), card(Color::Green, Value::Two)],
    );
    let before = total_cards(&g);
    let mut msgs: Vec<Outbound> = Vec::new();
    let pass = g.execute_commands(
        PlayerId(1),
        GameCommand::PlayCard(card(Color::Red, Value::Skip)),
        &mut msgs,
    );
    assert!(pass);
    assert_eq!(g.clients[0].hand.len(), 2);
    assert_eq!(g.discard.top(), Some(card(Color::Red, Value::Skip)));
    assert_eq!(g.turn_index, 1);
    assert_eq!(msgs[0], Outbound { to: PlayerId(1), msg: Message::CardValidation(true) });
    assert_eq!(total_cards(&g), before);
    // the driver now starts the next turn: it lands back on player 1
    g.pass_turn(false, &mut msgs);
    assert_eq!(g.turn_index, 0);
    assert_eq!(g.clients[1].state, PlayerState::WaitingToPlay);
    assert_eq!(g.clients[1].hand.len(), 3);
    assert!(
        g.clients[0].state == PlayerState::PlayingCard
            || g.clients[0].state == PlayerState::DrawingCard
    );
}

#[test]
fn counter_uno_before_uno_draws_two_penalty_cards() {
    let mut g = two_player_game(
        vec![card(Color::Red, Value::One), card(Color::Blue, Value::Two)],
        vec![
            card(Color::Blue, Value::One),
            card(Color::Blue, Value::Four),
            card(Color::Blue, Value::Six),
        ],
        vec![
            card(Color::Yellow, Value::Nine),
            card(Color::Green, Value::Two),
            card(Color::Green, Value::Three),
        ],
    );
    let mut msgs: Vec<Outbound> = Vec::new();
    let pass = g.execute_commands(
        PlayerId(1),
        GameCommand::PlayCard(card(Color::Red, Value::One)),
        &mut msgs,
    );
    // the hand shrank to one card: the turn does not pass yet and the
    // player enters the declaration phase
    assert!(!pass);
    assert_eq!(g.clients[0].state, PlayerState::Uno);
    assert_eq!(g.clients[0].hand.len(), 1);
    // the waiting opponent was prompted to counter
    assert!(msgs.contains(&Outbound { to: PlayerId(2), msg: Message::CounterUno }));
    // the opponent counters before the player declares
    let before = total_cards(&g);
    let mut msgs2: Vec<Outbound> = Vec::new();
    let pass2 = g.execute_commands(PlayerId(2), GameCommand::CounterUno, &mut msgs2);
    assert!(pass2);
    assert_eq!(g.clients[0].hand.len(), 3);
    assert_eq!(draw_messages_to(&msgs2, PlayerId(1)), 2);
    assert!(msgs2.contains(&Outbound { to: PlayerId(1), msg: Message::StopUno }));
    assert!(msgs2.contains(&Outbound { to: PlayerId(2), msg: Message::StopCounterUno }));
    assert_eq!(total_cards(&g), before);
}

#[test]
fn wild_four_choice_draws_four_and_skips() {
    let mut g = Game {
        clients: vec![
            player(
                1,
                vec![
                    card(Color::Black, Value::WildFour),
                    card(Color::Red, Value::One),
                    card(Color::Blue, Value::Two),
                ],
                PlayerState::PlayingCard,
            ),
            player(
                2,
                vec![card(Color::Blue, Value::One), card(Color::Blue, Value::Four)],
                PlayerState::WaitingToPlay,
            ),
            player(
                3,
                vec![card(Color::Green, Value::One), card(Color::Green, Value::Four)],
                PlayerState::WaitingToPlay,
            ),
        ],
        deck: deck_of(&[
            card(Color::Yellow, Value::Nine),
            card(Color::Green, Value::Two),
            card(Color::Green, Value::Three),
            card(Color::Yellow, Value::Two),
            card(Color::Yellow, Value::Three),
        ]),
        discard: deck_of(&[card(Color::Red, Value::Five)]),
        turn_index: 0,
        reverse_turn: false,
        current_color: Color::Red,
    };
    let before = total_cards(&g);
    let mut msgs: Vec<Outbound> = Vec::new();
    let pass = g.execute_commands(
        PlayerId(1),
        GameCommand::PlayCard(card(Color::Black, Value::WildFour)),
        &mut msgs,
    );
    // the turn waits for the color choice
    assert!(!pass);
    assert_eq!(g.clients[0].state, PlayerState::ChoosingColorWildFour);
    let mut msgs2: Vec<Outbound> = Vec::new();
    let pass2 = g.execute_commands(PlayerId(1), GameCommand::ColorChosen(Color::Blue), &mut msgs2);
    assert!(pass2);
    assert_eq!(g.current_color, Color::Blue);
    // the next player drew exactly four cards and is skipped
    assert_eq!(g.clients[1].hand.len(), 6);
    assert_eq!(draw_messages_to(&msgs2, PlayerId(2)), 4);
    assert_eq!(g.turn_index, 1);
    assert_eq!(total_cards(&g), before);
    // the driver starts the next turn: it lands on the player after the
    // four-card receiver
    g.pass_turn(false, &mut msgs2);
    assert_eq!(g.turn_index, 2);
}

#[test]
fn pass_turn_leaves_exactly_one_player_active() {
    let mut g = Game {
        clients: vec![
            player(1, vec![card(Color::Red, Value::One)], PlayerState::WaitingToPlay),
            player(2, vec![card(Color::Blue, Value::Two)], PlayerState::WaitingToPlay),
            player(3, vec![card(Color::Green, Value::Three)], PlayerState::WaitingToPlay),
        ],
        deck: deck_of(&[card(Color::Yellow, Value::Nine)]),
        discard: deck_of(&[card(Color::Red, Value::Five)]),
        turn_index: 0,
        reverse_turn: false,
        current_color: Color::Red,
    };
    let mut msgs: Vec<Outbound> = Vec::new();
    g.pass_turn(false, &mut msgs);
    let mut active = 0;
    for p in g.clients.iter() {
        match p.state {
            PlayerState::PlayingCard | PlayerState::DrawingCard => active += 1,
            PlayerState::WaitingToPlay => {},
            _ => panic!("unexpected state after a turn pass"),
        }
    }
    assert_eq!(active, 1);
    // the broadcast announces, per player: new current player, hand size,
    // current color
    assert_eq!(msgs[0], Outbound { to: PlayerId(1), msg: Message::PassTurn(PlayerId(2)) });
    assert_eq!(msgs[1], Outbound { to: PlayerId(1), msg: Message::HandSize(1, PlayerId(2)) });
    assert_eq!(msgs[2], Outbound { to: PlayerId(1), msg: Message::CurrentColor(Color::Red) });
}

#[test]
fn recycle_preserves_the_discard_top() {
    let mut g = two_player_game(
        vec![card(Color::Red, Value::One)],
        vec![card(Color::Blue, Value::One)],
        vec![],
    );
    g.discard = deck_of(&[
        card(Color::Green, Value::Two),
        card(Color::Yellow, Value::Seven),
        card(Color::Red, Value::Five),
    ]);
    let drawn = g.draw_card();
    assert_eq!(g.discard.size(), 1);
    assert_eq!(g.discard.top(), Some(card(Color::Red, Value::Five)));
    assert_eq!(g.deck.size(), 1);
    assert!(
        drawn == card(Color::Green, Value::Two) || drawn == card(Color::Yellow, Value::Seven)
    );
}

#[test]
fn voluntary_draw_of_a_playable_card_keeps_the_turn() {
    let mut g = two_player_game(
        vec![card(Color::Blue, Value::One)],
        vec![card(Color::Blue, Value::Four), card(Color::Blue, Value::Six)],
        vec![card(Color::Green, Value::Five)],
    );
    g.clients[0].state = PlayerState::DrawingCard;
    let mut msgs: Vec<Outbound> = Vec::new();
    let pass = g.execute_commands(PlayerId(1), GameCommand::DrawCard, &mut msgs);
    assert!(!pass);
    assert_eq!(g.clients[0].state, PlayerState::PlayingCard);
    assert_eq!(g.clients[0].hand.len(), 2);
    assert_eq!(
        msgs[0],
        Outbound { to: PlayerId(1), msg: Message::DrawCard(card(Color::Green, Value::Five)) },
    );
}

#[test]
fn voluntary_draw_of_a_dead_card_passes_the_turn() {
    let mut g = two_player_game(
        vec![card(Color::Blue, Value::One)],
        vec![card(Color::Blue, Value::Four), card(Color::Blue, Value::Six)],
        vec![card(Color::Green, Value::Two)],
    );
    g.clients[0].state = PlayerState::DrawingCard;
    let mut msgs: Vec<Outbound> = Vec::new();
    let pass = g.execute_commands(PlayerId(1), GameCommand::DrawCard, &mut msgs);
    assert!(pass);
    assert_eq!(g.clients[0].state, PlayerState::WaitingToPlay);
    assert_eq!(g.clients[0].hand.len(), 2);
}

#[test]
fn illegal_play_is_rejected_with_a_validity_notice() {
    let mut g = two_player_game(
        vec![card(Color::Blue, Value::One), card(Color::Blue, Value::Two)],
        vec![card(Color::Blue, Value::Four)],
        vec![card(Color::Green, Value::Two)],
    );
    let mut msgs: Vec<Outbound> = Vec::new();
    let pass = g.execute_commands(
        PlayerId(1),
        GameCommand::PlayCard(card(Color::Blue, Value::One)),
        &mut msgs,
    );
    assert!(!pass);
    assert_eq!(g.clients[0].hand.len(), 2);
    assert_eq!(msgs, vec![Outbound { to: PlayerId(1), msg: Message::CardValidation(false) }]);
}

#[test]
fn playable_card_absent_from_the_hand_is_rejected() {
    let mut g = two_player_game(
        vec![card(Color::Blue, Value::One), card(Color::Blue, Value::Two)],
        vec![card(Color::Blue, Value::Four)],
        vec![card(Color::Green, Value::Two)],
    );
    // a red nine would be legal on the red five, but the player holds none
    let mut msgs: Vec<Outbound> = Vec::new();
    let pass = g.execute_commands(
        PlayerId(1),
        GameCommand::PlayCard(card(Color::Red, Value::Nine)),
        &mut msgs,
    );
    assert!(!pass);
    assert_eq!(g.clients[0].hand.len(), 2);
    assert_eq!(g.discard.top(), Some(card(Color::Red, Value::Five)));
    assert_eq!(msgs, vec![Outbound { to: PlayerId(1), msg: Message::CardValidation(false) }]);
}

#[test]
fn uno_declaration_broadcasts_the_stop_pair() {
    let mut g = two_player_game(
        vec![card(Color::Blue, Value::One)],
        vec![card(Color::Blue, Value::Four)],
        vec![card(Color::Green, Value::Two)],
    );
    let mut msgs: Vec<Outbound> = Vec::new();
    let pass = g.execute_commands(PlayerId(1), GameCommand::Uno, &mut msgs);
    assert!(pass);
    assert_eq!(
        msgs,
        vec![
            Outbound { to: PlayerId(1), msg: Message::StopUno },
            Outbound { to: PlayerId(1), msg: Message::StopCounterUno },
            Outbound { to: PlayerId(2), msg: Message::StopUno },
            Outbound { to: PlayerId(2), msg: Message::StopCounterUno },
        ],
    );
}

#[test]
fn reverse_acts_as_skip_between_two_players() {
    let mut g = two_player_game(
        vec![
            card(Color::Red, Value::Reverse),
            card(Color::Blue, Value::Three),
            card(Color::Green, Value::Seven),
        ],
        vec![card(Color::Blue, Value::One), card(Color::Blue, Value::Two)],
        vec![card(Color::Yellow, Value::Nine)],
    );
    let mut msgs: Vec<Outbound> = Vec::new();
    let pass = g.execute_commands(
        PlayerId(1),
        GameCommand::PlayCard(card(Color::Red, Value::Reverse)),
        &mut msgs,
    );
    assert!(pass);
    assert!(g.reverse_turn);
    g.pass_turn(false, &mut msgs);
    // the reversed opponent was hopped over: player 1 is up again
    assert_eq!(g.turn_index, 0);
}

#[test]
fn scores_are_computed_and_broadcast_to_everyone() {
    let mut g = Game {
        clients: vec![
            player(
                1,
                vec![
                    card(Color::Red, Value::Nine),
                    card(Color::Red, Value::Skip),
                    card(Color::Black, Value::Wild),
                ],
                PlayerState::WaitingToPlay,
            ),
            player(2, vec![], PlayerState::WaitingToPlay),
        ],
        deck: deck_of(&[]),
        discard: deck_of(&[card(Color::Red, Value::Five)]),
        turn_index: 0,
        reverse_turn: false,
        current_color: Color::Red,
    };
    assert_eq!(g.check_if_game_end(), Some(PlayerId(2)));
    let mut msgs: Vec<Outbound> = Vec::new();
    g.game_end(PlayerId(2), &mut msgs);
    assert_eq!(g.clients[0].score, 79);
    assert_eq!(g.clients[1].score, 0);
    assert_eq!(
        msgs,
        vec![
            Outbound { to: PlayerId(1), msg: Message::PlayerScore(79, PlayerId(1)) },
            Outbound { to: PlayerId(1), msg: Message::PlayerScore(0, PlayerId(2)) },
            Outbound { to: PlayerId(2), msg: Message::PlayerScore(79, PlayerId(1)) },
            Outbound { to: PlayerId(2), msg: Message::PlayerScore(0, PlayerId(2)) },
            Outbound { to: PlayerId(1), msg: Message::GameEnd(PlayerId(2)) },
            Outbound { to: PlayerId(2), msg: Message::GameEnd(PlayerId(2)) },
        ],
    );
}

#[test]
fn a_fresh_game_deals_seven_each_and_conserves_all_cards() {
    let players = vec![
        Player::new(PlayerId(1)),
        Player::new(PlayerId(2)),
        Player::new(PlayerId(3)),
    ];
    let mut msgs: Vec<Outbound> = Vec::new();
    let g = Game::new(players, &mut msgs);
    assert_eq!(total_cards(&g), 108);
    for p in g.clients.iter() {
        assert_eq!(p.hand.len(), 7);
    }
    assert!(g.discard.size() >= 1);
    let top = g.discard.top().unwrap();
    assert_ne!(top.color, Color::Black);
    assert_eq!(g.current_color, top.color);
    // every player was told its identity first
    assert_eq!(msgs[0], Outbound { to: PlayerId(1), msg: Message::YourPlayerId(PlayerId(1)) });
}

#[test]
fn command_sequence_conserves_the_card_total() {
    let players = vec![Player::new(PlayerId(1)), Player::new(PlayerId(2))];
    let mut msgs: Vec<Outbound> = Vec::new();
    let mut g = Game::new(players, &mut msgs);
    assert_eq!(total_cards(&g), 108);
    // whoever is up, a voluntary draw or a declaration moves cards around
    // without creating or losing any
    for _ in 0..5 {
        let id = g.clients[g.turn_index].id;
        let pass = match g.clients[g.turn_index].state {
            PlayerState::DrawingCard => g.execute_commands(id, GameCommand::DrawCard, &mut msgs),
            _ => g.execute_commands(id, GameCommand::Uno, &mut msgs),
        };
        assert_eq!(total_cards(&g), 108);
        if pass {
            g.pass_turn(false, &mut msgs);
            assert_eq!(total_cards(&g), 108);
        }
    }
}

#[test]
fn a_dealt_game_skips_action_cards_when_flipping() {
    // drawing happens from the far end: after fourteen dealt cards the
    // fifteenth is a skip, which is buried, and the sixteenth a plain three
    let mut cards: Vec<Card> = Vec::new();
    for _ in 0..4 {
        cards.push(card(Color::Yellow, Value::One));
    }
    cards.push(card(Color::Red, Value::Three));
    cards.push(card(Color::Red, Value::Skip));
    for _ in 0..14 {
        cards.push(card(Color::Green, Value::Four));
    }
    let players = vec![Player::new(PlayerId(1)), Player::new(PlayerId(2))];
    let mut msgs: Vec<Outbound> = Vec::new();
    let g = Game::new_with_deck(players, deck_of(&cards), &mut msgs);
    assert_eq!(g.clients[0].hand.len(), 7);
    assert_eq!(g.clients[1].hand.len(), 7);
    assert_eq!(g.discard.size(), 2);
    assert_eq!(g.discard.top(), Some(card(Color::Red, Value::Three)));
    assert_eq!(g.current_color, Color::Red);
    assert_eq!(g.deck.size(), 4);
    assert_eq!(total_cards(&g), 20);
    // identities first, then the deal, then the flipped card to everyone
    assert_eq!(msgs[0], Outbound { to: PlayerId(1), msg: Message::YourPlayerId(PlayerId(1)) });
    assert_eq!(msgs[1], Outbound { to: PlayerId(2), msg: Message::YourPlayerId(PlayerId(2)) });
    assert_eq!(draw_messages_to(&msgs, PlayerId(1)), 7);
    assert_eq!(draw_messages_to(&msgs, PlayerId(2)), 7);
    assert!(msgs.contains(
        &Outbound { to: PlayerId(2), msg: Message::CardPlayed(card(Color::Red, Value::Three)) },
    ));
    // the buried skip is never announced
    assert!(!msgs.iter().any(
        |m| m.msg == Message::CardPlayed(card(Color::Red, Value::Skip)),
    ));
}

use uno::card::{Card, Color, Value};
use uno::player::{Player, PlayerId, PlayerState};

fn card(color: Color, value: Value) -> Card {
    Card { color, value }
}

#[test]
fn wild_cards_are_always_playable() {
    let tops = [
        card(Color::Red, Value::Five),
        card(Color::Green, Value::Skip),
        card(Color::Blue, Value::Zero),
    ];
    let colors = [Color::Red, Color::Yellow, Color::Green, Color::Blue, Color::Black];
    for top in tops {
        for color in colors {
            assert!(card(Color::Black, Value::Wild).can_be_played(top, color));
            assert!(card(Color::Black, Value::WildFour).can_be_played(top, color));
        }
    }
}

#[test]
fn playable_iff_shares_color_or_value_or_wild() {
    let top = card(Color::Red, Value::Five);
    // shares the current color
    assert!(card(Color::Green, Value::Nine).can_be_played(top, Color::Green));
    // shares the top card's value
    assert!(card(Color::Green, Value::Five).can_be_played(top, Color::Red));
    // shares neither and is not wild
    assert!(!card(Color::Green, Value::Nine).can_be_played(top, Color::Red));
    assert!(!card(Color::Blue, Value::Two).can_be_played(top, Color::Yellow));
}

#[test]
fn card_points_match_scoring_rules() {
    assert_eq!(card(Color::Red, Value::Zero).points(), 0);
    assert_eq!(card(Color::Red, Value::Seven).points(), 7);
    assert_eq!(card(Color::Green, Value::Skip).points(), 20);
    assert_eq!(card(Color::Blue, Value::Reverse).points(), 20);
    assert_eq!(card(Color::Yellow, Value::DrawTwo).points(), 20);
    assert_eq!(card(Color::Black, Value::Wild).points(), 50);
    assert_eq!(card(Color::Black, Value::WildFour).points(), 50);
}

#[test]
fn player_can_play_scans_the_hand() {
    let top = card(Color::Red, Value::Five);
    let mut p = Player::new(PlayerId(7));
    assert_eq!(p.state, PlayerState::WaitingToPlay);
    assert!(!p.can_play(top, Color::Red));
    p.hand.push(card(Color::Blue, Value::Two));
    assert!(!p.can_play(top, Color::Red));
    p.hand.push(card(Color::Blue, Value::Five));
    assert!(p.can_play(top, Color::Red));
}

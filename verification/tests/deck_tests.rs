use uno::card::{Card, Color, Value};
use uno::deck::Deck;

fn card(color: Color, value: Value) -> Card {
    Card { color, value }
}

#[test]
fn full_deck_size() {
    assert_eq!(Deck::full().size(), 108);
}

#[test]
fn full_deck_composition() {
    let mut deck = Deck::full();
    let mut red_zero = 0;
    let mut red_five = 0;
    let mut green_skip = 0;
    let mut blue_reverse = 0;
    let mut yellow_draw_two = 0;
    let mut wilds = 0;
    let mut wild_fours = 0;
    let mut total = 0;
    while let Some(c) = deck.draw() {
        total += 1;
        if c == card(Color::Red, Value::Zero) {
            red_zero += 1;
        }
        if c == card(Color::Red, Value::Five) {
            red_five += 1;
        }
        if c == card(Color::Green, Value::Skip) {
            green_skip += 1;
        }
        if c == card(Color::Blue, Value::Reverse) {
            blue_reverse += 1;
        }
        if c == card(Color::Yellow, Value::DrawTwo) {
            yellow_draw_two += 1;
        }
        if c.value == Value::Wild {
            wilds += 1;
        }
        if c.value == Value::WildFour {
            wild_fours += 1;
        }
    }
    assert_eq!(total, 108);
    assert_eq!(red_zero, 1);
    assert_eq!(red_five, 2);
    assert_eq!(green_skip, 2);
    assert_eq!(blue_reverse, 2);
    assert_eq!(yellow_draw_two, 2);
    assert_eq!(wilds, 4);
    assert_eq!(wild_fours, 4);
}

#[test]
fn empty_deck_draw_fails() {
    let mut deck = Deck::empty();
    assert_eq!(deck.size(), 0);
    assert!(deck.is_empty());
    assert!(deck.draw().is_none());
}

#[test]
fn draw_add_top_share_one_end() {
    let mut deck = Deck::empty();
    let a = card(Color::Red, Value::One);
    let b = card(Color::Blue, Value::Two);
    deck.add(a);
    deck.add(b);
    assert_eq!(deck.top(), Some(b));
    assert_eq!(deck.size(), 2);
    assert_eq!(deck.draw(), Some(b));
    assert_eq!(deck.top(), Some(a));
    assert_eq!(deck.draw(), Some(a));
    assert!(deck.is_empty());
}

#[test]
fn shuffle_keeps_the_same_cards() {
    let mut deck = Deck::full();
    deck.shuffle();
    assert_eq!(deck.size(), 108);
    let mut wilds = 0;
    let mut red_zero = 0;
    while let Some(c) = deck.draw() {
        if c.value == Value::Wild {
            wilds += 1;
        }
        if c == card(Color::Red, Value::Zero) {
            red_zero += 1;
        }
    }
    assert_eq!(wilds, 4);
    assert_eq!(red_zero, 1);
}

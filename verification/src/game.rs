//! The turn engine: owns the draw and discard decks and every player
//! record, interprets validated game commands, and emits outbound messages
//! in the exact order the transport must deliver them.

use vstd::prelude::*;

use crate::card::{Card, Color, Value, is_plain, spec_can_be_played, spec_points};
use crate::deck::{Deck, canonical_count, card_count, full_seq, plain_count,
    lemma_card_count_concat, lemma_card_count_reverse, lemma_plain_count_le_len};
use crate::messages::{GameCommand, Message, Outbound};
use crate::player::{Player, PlayerId, PlayerState, spec_can_play, is_choosing_color,
    is_choosing_color_wild_four};

verus! {

/// Sum of the hand sizes of a player sequence.
pub open spec fn hand_total(players: Seq<Player>) -> int
    decreases players.len(),
{
    if players.len() == 0 {
        0
    } else {
        hand_total(players.drop_last()) + players.last().hand@.len()
    }
}

/// Two player sequences of equal length and equal hand sizes hold the same
/// number of cards.
pub proof fn lemma_hand_total_pointwise(a: Seq<Player>, b: Seq<Player>)
    requires
        a.len() == b.len(),
        forall|i: int| 0 <= i < a.len() ==> a[i].hand@.len() == b[i].hand@.len(),
    ensures
        hand_total(a) == hand_total(b),
    decreases a.len(),
{
    if a.len() > 0 {
        lemma_hand_total_pointwise(a.drop_last(), b.drop_last());
    }
}

/// Replacing one player changes the total by the difference of the two
/// hand sizes.
pub proof fn lemma_hand_total_update(players: Seq<Player>, i: int, p: Player)
    requires
        0 <= i < players.len(),
    ensures
        hand_total(players.update(i, p)) == hand_total(players) - players[i].hand@.len()
            + p.hand@.len(),
    decreases players.len(),
{
    let n = players.len() as int;
    if i == n - 1 {
        assert(players.update(i, p).drop_last() =~= players.drop_last());
        assert(players.update(i, p).last() == p);
    } else {
        assert(players.update(i, p).drop_last() =~= players.drop_last().update(i, p));
        assert(players.update(i, p).last() == players.last());
        lemma_hand_total_update(players.drop_last(), i, p);
    }
}

/// Occurrences of card `x` across all hands of a player sequence.
pub open spec fn hands_card_count(players: Seq<Player>, x: Card) -> int
    decreases players.len(),
{
    if players.len() == 0 {
        0
    } else {
        hands_card_count(players.drop_last(), x) + card_count(players.last().hand@, x)
    }
}

/// Two player sequences with the same hands hold every card the same
/// number of times.
pub proof fn lemma_hands_card_count_pointwise(a: Seq<Player>, b: Seq<Player>, x: Card)
    requires
        a.len() == b.len(),
        forall|i: int| 0 <= i < a.len() ==> a[i].hand == b[i].hand,
    ensures
        hands_card_count(a, x) == hands_card_count(b, x),
    decreases a.len(),
{
    if a.len() > 0 {
        lemma_hands_card_count_pointwise(a.drop_last(), b.drop_last(), x);
    }
}

/// Replacing one player's record moves a card's across-hands count by the
/// difference at that position.
pub proof fn lemma_hands_card_count_update(players: Seq<Player>, i: int, p: Player, x: Card)
    requires
        0 <= i < players.len(),
    ensures
        hands_card_count(players.update(i, p), x) == hands_card_count(players, x) - card_count(
            players[i].hand@,
            x,
        ) + card_count(p.hand@, x),
    decreases players.len(),
{
    let n = players.len() as int;
    if i == n - 1 {
        assert(players.update(i, p).drop_last() =~= players.drop_last());
        assert(players.update(i, p).last() == p);
    } else {
        assert(players.update(i, p).drop_last() =~= players.drop_last().update(i, p));
        assert(players.update(i, p).last() == players.last());
        lemma_hands_card_count_update(players.drop_last(), i, p, x);
    }
}

/// Frame form of the update lemma: two sequences that agree away from one
/// position.
pub proof fn lemma_hands_card_count_update_facts(
    org: Seq<Player>,
    fin: Seq<Player>,
    j: int,
    x: Card,
)
    requires
        org.len() == fin.len(),
        0 <= j < org.len(),
        forall|k: int| 0 <= k < org.len() && k != j ==> fin[k] == org[k],
    ensures
        hands_card_count(fin, x) == hands_card_count(org, x) - card_count(org[j].hand@, x)
            + card_count(fin[j].hand@, x),
{
    assert(fin =~= org.update(j, fin[j]));
    lemma_hands_card_count_update(org, j, fin[j], x);
}

/// Empty hands hold no card at all.
pub proof fn lemma_hands_card_count_zero(players: Seq<Player>, x: Card)
    requires
        forall|k: int| 0 <= k < players.len() ==> players[k].hand@.len() == 0,
    ensures
        hands_card_count(players, x) == 0,
    decreases players.len(),
{
    if players.len() > 0 {
        lemma_hands_card_count_zero(players.drop_last(), x);
    }
}

/// No two players share an identity.
pub open spec fn ids_distinct(players: Seq<Player>) -> bool {
    forall|i: int, j: int|
        0 <= i < players.len() && 0 <= j < players.len() && i != j ==> players[i].id
            != players[j].id
}

/// The authoritative game state: the ordered player sequence defining turn
/// order, the position whose turn it is, the traversal direction, the color
/// new plays must match, and the draw and discard decks.
pub struct Game {
    pub clients: Vec<Player>,
    pub deck: Deck,
    pub discard: Deck,
    pub turn_index: usize,
    pub reverse_turn: bool,
    pub current_color: Color,
}

impl Game {
    /// Structural well-formedness: at least one player, a valid turn
    /// position, a non-empty discard pile, and pairwise distinct ids.
    pub open spec fn wf(self) -> bool {
        &&& self.clients@.len() >= 1
        &&& self.turn_index < self.clients@.len()
        &&& self.discard@.len() >= 1
        &&& ids_distinct(self.clients@)
    }

    /// Between commands, every player other than the one at `turn_index`
    /// is waiting.
    pub open spec fn others_waiting(self) -> bool {
        forall|j: int|
            0 <= j < self.clients@.len() && j != self.turn_index ==> self.clients@[j].state
                == PlayerState::WaitingToPlay
    }

    /// Cards held by decks and hands together.
    pub open spec fn total_cards(self) -> int {
        self.deck@.len() + self.discard@.len() + hand_total(self.clients@)
    }

    /// How often card `x` occurs anywhere in the game: draw deck, discard
    /// pile, and every hand.
    pub open spec fn card_tally(self, x: Card) -> int {
        card_count(self.deck@, x) + card_count(self.discard@, x) + hands_card_count(
            self.clients@,
            x,
        )
    }

    /// Position the turn moves to next, one step in the current direction
    /// with wraparound.
    pub open spec fn next_index(self) -> int {
        if self.reverse_turn {
            if self.turn_index == 0 {
                self.clients@.len() - 1
            } else {
                self.turn_index - 1
            }
        } else {
            (self.turn_index + 1) % (self.clients@.len() as int)
        }
    }

    /// Draws one card, recycling the discard pile into a freshly shuffled
    /// draw deck when the deck is empty. The recycle keeps the discard top
    /// in place as the sole remaining discard entry, so the current-color
    /// anchor survives, and loses no card.
    pub fn draw_card(&mut self) -> (c: Card)
        requires
            old(self).deck@.len() + old(self).discard@.len() >= 2,
        ensures
            final(self).deck@.len() + final(self).discard@.len() == old(self).deck@.len() + old(
                self,
            ).discard@.len() - 1,
            old(self).discard@.len() >= 1 ==> final(self).discard@.len() >= 1,
            old(self).discard@.len() >= 1 ==> final(self).discard@.len() <= old(
                self,
            ).discard@.len() && final(self).discard@.last() == old(self).discard@.last(),
            old(self).deck@.len() > 0 ==> final(self).deck@ == old(self).deck@.drop_last() && c
                == old(self).deck@.last() && final(self).discard@ == old(self).discard@,
            old(self).deck@.len() == 0 ==> final(self).discard@ =~= seq![
                old(self).discard@.last(),
            ],
            final(self).clients@ == old(self).clients@,
            final(self).turn_index == old(self).turn_index,
            final(self).reverse_turn == old(self).reverse_turn,
            final(self).current_color == old(self).current_color,
            plain_count(final(self).deck@) + plain_count(final(self).discard@) >= plain_count(
                old(self).deck@,
            ) + plain_count(old(self).discard@) - 1,
            forall|x: Card|
                card_count(final(self).deck@, x) + card_count(final(self).discard@, x) + (
                if x == c {
                    1int
                } else {
                    0int
                }) == card_count(old(self).deck@, x) + card_count(old(self).discard@, x),
            final(self).total_cards() == old(self).total_cards() - 1,
    {
        if self.deck.is_empty() {
            let top_card = match self.discard.draw() {
                Some(c) => c,
                None => {
                    proof {
                        assert(false);
                    }
                    Card { color: Color::Black, value: Value::Wild }
                },
            };
            let ghost rest0 = self.discard@;
            // move every remaining discard card into the draw deck
            while self.discard.size() > 0
                invariant
                    self.deck@.len() + self.discard@.len() == rest0.len(),
                    plain_count(self.deck@) + plain_count(self.discard@) == plain_count(rest0),
                    forall|x: Card|
                        card_count(self.deck@, x) + card_count(self.discard@, x) == card_count(
                            rest0,
                            x,
                        ),
                    self.clients@ == old(self).clients@,
                    self.turn_index == old(self).turn_index,
                    self.reverse_turn == old(self).reverse_turn,
                    self.current_color == old(self).current_color,
                decreases self.discard@.len(),
            {
                let ghost dk = self.deck@;
                let moved = match self.discard.draw() {
                    Some(c) => c,
                    None => {
                        proof {
                            assert(false);
                        }
                        Card { color: Color::Black, value: Value::Wild }
                    },
                };
                self.deck.add(moved);
                proof {
                    assert(self.deck@.drop_last() =~= dk);
                    assert(self.deck@.last() == moved);
                    assert forall|x: Card|
                        card_count(self.deck@, x) + card_count(self.discard@, x) == card_count(
                            rest0,
                            x,
                        ) by {
                        assert(card_count(self.deck@, x) == card_count(dk, x) + if moved == x {
                            1int
                        } else {
                            0int
                        });
                    }
                }
            }
            self.deck.shuffle();
            self.discard.add(top_card);
            proof {
                assert(self.discard@ =~= seq![old(self).discard@.last()]);
                assert(self.discard@.drop_last() =~= Seq::<Card>::empty());
                assert(plain_count(Seq::<Card>::empty()) == 0);
                assert forall|x: Card|
                    card_count(self.deck@, x) + card_count(self.discard@, x) == card_count(
                        old(self).deck@,
                        x,
                    ) + card_count(old(self).discard@, x) by {
                    assert(card_count(Seq::<Card>::empty(), x) == 0);
                    assert(card_count(self.discard@, x) == if top_card == x {
                        1int
                    } else {
                        0int
                    });
                    assert(card_count(old(self).discard@, x) == card_count(rest0, x)
                        + if top_card == x {
                        1int
                    } else {
                        0int
                    });
                    assert(card_count(old(self).deck@, x) == 0);
                }
                assert(plain_count(self.discard@) == if is_plain(top_card) {
                    1int
                } else {
                    0int
                });
                assert(plain_count(old(self).discard@) == plain_count(rest0) + if is_plain(
                    top_card,
                ) {
                    1int
                } else {
                    0int
                });
            }
        }
        let ghost deck_pre = self.deck@;
        let ghost disc_pre = self.discard@;
        let drawn = match self.deck.draw() {
            Some(c) => c,
            None => {
                proof {
                    assert(false);
                }
                Card { color: Color::Black, value: Value::Wild }
            },
        };
        proof {
            lemma_hand_total_pointwise(self.clients@, old(self).clients@);
            assert forall|x: Card|
                card_count(self.deck@, x) + card_count(self.discard@, x) + (if x == drawn {
                    1int
                } else {
                    0int
                }) == card_count(old(self).deck@, x) + card_count(old(self).discard@, x) by {
                assert(self.deck@ == deck_pre.drop_last());
                assert(drawn == deck_pre.last());
                assert(card_count(deck_pre, x) == card_count(self.deck@, x) + if drawn == x {
                    1int
                } else {
                    0int
                });
            }
        }
        drawn
    }

    /// Broadcast sent after the turn passes: to each player in order, the
    /// new current player's identity, that player's hand size, and the
    /// current color.
    pub open spec fn turn_broadcast(players: Seq<Player>, id: PlayerId, n: usize, color: Color)
        -> Seq<Outbound>
        decreases players.len(),
    {
        if players.len() == 0 {
            Seq::empty()
        } else {
            Self::turn_broadcast(players.drop_last(), id, n, color) + seq![
                Outbound { to: players.last().id, msg: Message::PassTurn(id) },
                Outbound { to: players.last().id, msg: Message::HandSize(n, id) },
                Outbound { to: players.last().id, msg: Message::CurrentColor(color) },
            ]
        }
    }

    /// Advances the turn one step in the current direction, resets every
    /// player to waiting, and broadcasts, in this exact order per player:
    /// the new current player's identity, that player's hand size, and the
    /// current color. When `passing_turn` is false this is the
    /// start-of-turn evaluation: the new current player is set to playing,
    /// or to drawing with a must-draw notice when no legal card is held.
    pub fn pass_turn(&mut self, passing_turn: bool, messages: &mut Vec<Outbound>)
        requires
            old(self).wf(),
        ensures
            final(self).wf(),
            final(self).turn_index == old(self).next_index(),
            final(self).deck == old(self).deck,
            final(self).discard == old(self).discard,
            final(self).current_color == old(self).current_color,
            final(self).reverse_turn == old(self).reverse_turn,
            final(self).clients@.len() == old(self).clients@.len(),
            forall|j: int|
                0 <= j < old(self).clients@.len() ==> final(self).clients@[j].id == old(
                    self,
                ).clients@[j].id && final(self).clients@[j].hand == old(self).clients@[j].hand
                    && final(self).clients@[j].score == old(self).clients@[j].score,
            final(self).total_cards() == old(self).total_cards(),
            passing_turn ==> forall|j: int|
                0 <= j < final(self).clients@.len() ==> final(self).clients@[j].state
                    == PlayerState::WaitingToPlay,
            !passing_turn ==> {
                let t = old(self).next_index();
                let can = spec_can_play(
                    old(self).clients@[t].hand@,
                    old(self).discard@.last(),
                    old(self).current_color,
                );
                &&& forall|j: int|
                    0 <= j < final(self).clients@.len() && j != t
                        ==> final(self).clients@[j].state == PlayerState::WaitingToPlay
                &&& final(self).clients@[t].state == if can {
                    PlayerState::PlayingCard
                } else {
                    PlayerState::DrawingCard
                }
            },
            final(self).others_waiting(),
            final(messages)@ == old(messages)@ + Self::turn_broadcast(
                old(self).clients@,
                old(self).clients@[old(self).next_index()].id,
                old(self).clients@[old(self).next_index()].hand@.len() as usize,
                old(self).current_color,
            ) + if !passing_turn && !spec_can_play(
                old(self).clients@[old(self).next_index()].hand@,
                old(self).discard@.last(),
                old(self).current_color,
            ) {
                seq![
                    Outbound {
                        to: old(self).clients@[old(self).next_index()].id,
                        msg: Message::HaveToDrawCard,
                    },
                ]
            } else {
                Seq::<Outbound>::empty()
            },
    {
        let n = self.clients.len();
        if self.reverse_turn {
            if self.turn_index == 0 {
                self.turn_index = n - 1;
            } else {
                self.turn_index = self.turn_index - 1;
            }
        } else {
            self.turn_index = (self.turn_index + 1) % n;
        }
        let id = self.clients[self.turn_index].id;
        let nb_cards = self.clients[self.turn_index].hand.len();
        let ghost orig = self.clients@;
        let ghost base = messages@;
        let mut j: usize = 0;
        while j < self.clients.len()
            invariant
                j <= orig.len(),
                self.clients@.len() == orig.len(),
                forall|k: int|
                    0 <= k < orig.len() ==> self.clients@[k].id == orig[k].id
                        && self.clients@[k].hand == orig[k].hand && self.clients@[k].score
                        == orig[k].score,
                forall|k: int| 0 <= k < j ==> self.clients@[k].state == PlayerState::WaitingToPlay,
                forall|k: int| j <= k < orig.len() ==> self.clients@[k] == orig[k],
                self.deck == old(self).deck,
                self.discard == old(self).discard,
                self.current_color == old(self).current_color,
                self.reverse_turn == old(self).reverse_turn,
                self.turn_index < orig.len(),
                self.turn_index == old(self).next_index(),
                messages@ == base + Self::turn_broadcast(
                    orig.subrange(0, j as int),
                    id,
                    nb_cards,
                    self.current_color,
                ),
            decreases orig.len() - j,
        {
            self.clients[j].state = PlayerState::WaitingToPlay;
            messages.push(Outbound { to: self.clients[j].id, msg: Message::PassTurn(id) });
            messages.push(Outbound { to: self.clients[j].id, msg: Message::HandSize(nb_cards, id) });
            messages.push(
                Outbound { to: self.clients[j].id, msg: Message::CurrentColor(self.current_color) },
            );
            proof {
                let pre = orig.subrange(0, j as int);
                let post = orig.subrange(0, j + 1 as int);
                assert(post.drop_last() =~= pre);
                assert(post.last() == orig[j as int]);
                assert(messages@ =~= base + Self::turn_broadcast(
                    post,
                    id,
                    nb_cards,
                    self.current_color,
                ));
            }
            j = j + 1;
        }
        proof {
            assert(orig.subrange(0, orig.len() as int) =~= orig);
            lemma_hand_total_pointwise(self.clients@, orig);
        }
        if !passing_turn {
            let top = match self.discard.top() {
                Some(c) => c,
                None => {
                    proof {
                        assert(false);
                    }
                    Card { color: Color::Black, value: Value::Wild }
                },
            };
            if !self.clients[self.turn_index].can_play(top, self.current_color) {
                self.clients[self.turn_index].state = PlayerState::DrawingCard;
                messages.push(
                    Outbound {
                        to: self.clients[self.turn_index].id,
                        msg: Message::HaveToDrawCard,
                    },
                );
                proof {
                    assert(messages@ =~= old(messages)@ + Self::turn_broadcast(
                        orig,
                        id,
                        nb_cards,
                        old(self).current_color,
                    ) + seq![Outbound { to: id, msg: Message::HaveToDrawCard }]);
                    lemma_hand_total_pointwise(self.clients@, orig);
                }
            } else {
                self.clients[self.turn_index].state = PlayerState::PlayingCard;
                proof {
                    lemma_hand_total_pointwise(self.clients@, orig);
                }
            }
        }
        proof {
            lemma_ids_distinct_pointwise(orig, self.clients@);
        }
    }

    /// Messages that tell every participant its own identity, in player
    /// order.
    pub open spec fn ids_broadcast(players: Seq<Player>) -> Seq<Outbound>
        decreases players.len(),
    {
        if players.len() == 0 {
            Seq::empty()
        } else {
            Self::ids_broadcast(players.drop_last()) + seq![
                Outbound { to: players.last().id, msg: Message::YourPlayerId(players.last().id) },
            ]
        }
    }

    /// Sends every player its own identity.
    pub fn send_player_ids(&mut self, messages: &mut Vec<Outbound>)
        ensures
            *final(self) == *old(self),
            final(messages)@ == old(messages)@ + Self::ids_broadcast(old(self).clients@),
    {
        let ghost base = messages@;
        let mut j: usize = 0;
        while j < self.clients.len()
            invariant
                j <= self.clients@.len(),
                self == old(self),
                messages@ == base + Self::ids_broadcast(self.clients@.subrange(0, j as int)),
            decreases self.clients@.len() - j,
        {
            messages.push(
                Outbound {
                    to: self.clients[j].id,
                    msg: Message::YourPlayerId(self.clients[j].id),
                },
            );
            proof {
                let pre = self.clients@.subrange(0, j as int);
                let post = self.clients@.subrange(0, j + 1 as int);
                assert(post.drop_last() =~= pre);
                assert(post.last() == self.clients@[j as int]);
                assert(messages@ =~= base + Self::ids_broadcast(post));
            }
            j = j + 1;
        }
        proof {
            assert(self.clients@.subrange(0, self.clients@.len() as int) =~= self.clients@);
        }
    }

    /// Draw deliveries for `cards`, in draw order, all addressed to `to`.
    pub open spec fn draw_run(to: PlayerId, cards: Seq<Card>) -> Seq<Outbound>
        decreases cards.len(),
    {
        if cards.len() == 0 {
            Seq::empty()
        } else {
            Self::draw_run(to, cards.drop_last()).push(
                Outbound { to, msg: Message::DrawCard(cards.last()) },
            )
        }
    }

    /// One copy of `m` for every player, in player order.
    pub open spec fn broadcast_all(players: Seq<Player>, m: Message) -> Seq<Outbound>
        decreases players.len(),
    {
        if players.len() == 0 {
            Seq::empty()
        } else {
            Self::broadcast_all(players.drop_last(), m).push(
                Outbound { to: players.last().id, msg: m },
            )
        }
    }

    /// Sends `m` to every player, in player order.
    fn broadcast(clients: &Vec<Player>, m: Message, messages: &mut Vec<Outbound>)
        ensures
            final(messages)@ == old(messages)@ + Self::broadcast_all(clients@, m),
    {
        let ghost base = messages@;
        let mut j: usize = 0;
        while j < clients.len()
            invariant
                j <= clients@.len(),
                messages@ == base + Self::broadcast_all(clients@.subrange(0, j as int), m),
            decreases clients@.len() - j,
        {
            messages.push(Outbound { to: clients[j].id, msg: m });
            proof {
                let pre = clients@.subrange(0, j as int);
                let post = clients@.subrange(0, j + 1 as int);
                assert(post.drop_last() =~= pre);
                assert(post.last() == clients@[j as int]);
                assert(messages@ =~= base + Self::broadcast_all(post, m));
            }
            j = j + 1;
        }
        proof {
            assert(clients@.subrange(0, clients@.len() as int) =~= clients@);
        }
    }

    /// Deals `count` cards off the top of the draw deck to player `j`,
    /// announcing each to that player alone.
    fn deal_to(&mut self, j: usize, count: usize, messages: &mut Vec<Outbound>)
        requires
            j < old(self).clients@.len(),
            old(self).deck@.len() >= count,
        ensures
            final(self).clients@.len() == old(self).clients@.len(),
            final(self).deck@ == old(self).deck@.take(old(self).deck@.len() - count),
            final(self).discard == old(self).discard,
            final(self).turn_index == old(self).turn_index,
            final(self).reverse_turn == old(self).reverse_turn,
            final(self).current_color == old(self).current_color,
            forall|k: int|
                0 <= k < old(self).clients@.len() && k != j ==> final(self).clients@[k] == old(
                    self,
                ).clients@[k],
            final(self).clients@[j as int].id == old(self).clients@[j as int].id,
            final(self).clients@[j as int].state == old(self).clients@[j as int].state,
            final(self).clients@[j as int].score == old(self).clients@[j as int].score,
            final(self).clients@[j as int].hand@ == old(self).clients@[j as int].hand@ + old(
                self,
            ).deck@.subrange(old(self).deck@.len() - count, old(self).deck@.len() as int).reverse(),
            final(self).total_cards() == old(self).total_cards(),
            plain_count(final(self).deck@) >= plain_count(old(self).deck@) - count,
            forall|x: Card|
                card_count(final(self).deck@, x) + card_count(
                    final(self).clients@[j as int].hand@,
                    x,
                ) == card_count(old(self).deck@, x) + card_count(
                    old(self).clients@[j as int].hand@,
                    x,
                ),
            final(messages)@ == old(messages)@ + Self::draw_run(
                old(self).clients@[j as int].id,
                old(self).deck@.subrange(
                    old(self).deck@.len() - count,
                    old(self).deck@.len() as int,
                ).reverse(),
            ),
    {
        let ghost deck0 = self.deck@;
        let ghost hand0 = self.clients@[j as int].hand@;
        let ghost base = messages@;
        let ghost run = deck0.subrange(deck0.len() - count, deck0.len() as int).reverse();
        let id = self.clients[j].id;
        let mut i: usize = 0;
        while i < count
            invariant
                i <= count,
                j < self.clients@.len(),
                self.clients@.len() == old(self).clients@.len(),
                deck0.len() >= count,
                self.deck@ == deck0.take(deck0.len() - i),
                self.discard == old(self).discard,
                self.turn_index == old(self).turn_index,
                self.reverse_turn == old(self).reverse_turn,
                self.current_color == old(self).current_color,
                forall|k: int|
                    0 <= k < self.clients@.len() && k != j ==> self.clients@[k] == old(
                        self,
                    ).clients@[k],
                self.clients@[j as int].id == old(self).clients@[j as int].id,
                self.clients@[j as int].state == old(self).clients@[j as int].state,
                self.clients@[j as int].score == old(self).clients@[j as int].score,
                self.clients@[j as int].hand@ == hand0 + run.take(i as int),
                run == deck0.subrange(deck0.len() - count, deck0.len() as int).reverse(),
                run.len() == count,
                hand0 == old(self).clients@[j as int].hand@,
                id == old(self).clients@[j as int].id,
                plain_count(self.deck@) >= plain_count(deck0) - i,
                messages@ == base + Self::draw_run(id, run.take(i as int)),
            decreases count - i,
        {
            let ghost dpre = self.deck@;
            let c = match self.deck.draw() {
                Some(c) => c,
                None => {
                    proof {
                        assert(false);
                    }
                    Card { color: Color::Black, value: Value::Wild }
                },
            };
            self.clients[j].hand.push(c);
            messages.push(Outbound { to: id, msg: Message::DrawCard(c) });
            proof {
                let sub = deck0.subrange(deck0.len() - count, deck0.len() as int);
                assert(sub.len() == count);
                assert(run == sub.reverse());
                assert(run.len() == count);
                assert(run[i as int] == sub[count - 1 - i]);
                assert(sub[count - 1 - i] == deck0[deck0.len() - 1 - i]);
                assert(c == deck0[deck0.len() - 1 - i]) by {
                    assert(c == dpre.last());
                    assert(dpre == deck0.take(deck0.len() - i));
                }
                assert(c == run[i as int]);
                assert(self.deck@ =~= deck0.take(deck0.len() - (i + 1)));
                assert(run.take(i + 1 as int).drop_last() =~= run.take(i as int));
                assert(self.clients@[j as int].hand@ =~= hand0 + run.take(i + 1 as int));
                assert(messages@ =~= base + Self::draw_run(id, run.take(i + 1 as int)));
            }
            i = i + 1;
        }
        proof {
            assert(run.take(count as int) =~= run);
            let fin = self.clients@;
            let org = old(self).clients@;
            lemma_hand_total_update_facts(org, fin, j as int);
            let sub = deck0.subrange(deck0.len() - count, deck0.len() as int);
            assert forall|x: Card|
                card_count(self.deck@, x) + card_count(self.clients@[j as int].hand@, x)
                    == card_count(deck0, x) + card_count(hand0, x) by {
                lemma_card_count_concat(hand0, run, x);
                lemma_card_count_concat(deck0.take(deck0.len() - count), sub, x);
                lemma_card_count_reverse(sub, x);
                assert(deck0 =~= deck0.take(deck0.len() - count) + sub);
            }
        }
    }

    /// Deliveries of the initial deal: player after player, the seven cards
    /// each receives off the top of the deck, announced to that player
    /// alone.
    pub open spec fn deal_broadcast(players: Seq<Player>, deck: Seq<Card>) -> Seq<Outbound>
        decreases players.len(),
    {
        if players.len() == 0 {
            Seq::empty()
        } else {
            let m = players.len() as int;
            Self::deal_broadcast(players.drop_last(), deck) + Self::draw_run(
                players.last().id,
                deck.subrange(deck.len() - 7 * m, deck.len() - 7 * (m - 1)).reverse(),
            )
        }
    }

    /// Deals the initial seven cards to every player, announcing each card
    /// to its receiver alone.
    pub fn give_first_cards(&mut self, messages: &mut Vec<Outbound>)
        requires
            old(self).deck@.len() >= 7 * old(self).clients@.len(),
        ensures
            final(messages)@ == old(messages)@ + Self::deal_broadcast(
                old(self).clients@,
                old(self).deck@,
            ),
            final(self).clients@.len() == old(self).clients@.len(),
            final(self).deck@.len() == old(self).deck@.len() - 7 * old(self).clients@.len(),
            final(self).discard == old(self).discard,
            final(self).turn_index == old(self).turn_index,
            final(self).reverse_turn == old(self).reverse_turn,
            final(self).current_color == old(self).current_color,
            forall|k: int|
                0 <= k < old(self).clients@.len() ==> final(self).clients@[k].id == old(
                    self,
                ).clients@[k].id && final(self).clients@[k].state == old(self).clients@[k].state
                    && final(self).clients@[k].score == old(self).clients@[k].score && final(self).clients@[k].hand@.len() == old(self).clients@[k].hand@.len() + 7,
            forall|k: int|
                0 <= k < old(self).clients@.len() ==> final(self).clients@[k].hand@ == old(
                    self,
                ).clients@[k].hand@ + old(self).deck@.subrange(
                    old(self).deck@.len() - 7 * (k + 1),
                    old(self).deck@.len() - 7 * k,
                ).reverse(),
            forall|x: Card|
                card_count(final(self).deck@, x) + hands_card_count(final(self).clients@, x)
                    == card_count(old(self).deck@, x) + hands_card_count(old(self).clients@, x),
            final(self).total_cards() == old(self).total_cards(),
            plain_count(final(self).deck@) >= plain_count(old(self).deck@) - 7 * old(
                self,
            ).clients@.len(),
    {
        let n = self.clients.len();
        let mut j: usize = 0;
        while j < n
            invariant
                j <= n,
                n == self.clients@.len(),
                self.clients@.len() == old(self).clients@.len(),
                old(self).deck@.len() >= 7 * n,
                self.deck@.len() == old(self).deck@.len() - 7 * j,
                self.deck@ == old(self).deck@.take(old(self).deck@.len() - 7 * j),
                self.discard == old(self).discard,
                self.turn_index == old(self).turn_index,
                self.reverse_turn == old(self).reverse_turn,
                self.current_color == old(self).current_color,
                forall|k: int|
                    0 <= k < self.clients@.len() ==> self.clients@[k].id == old(
                        self,
                    ).clients@[k].id && self.clients@[k].state == old(self).clients@[k].state
                        && self.clients@[k].score == old(self).clients@[k].score,
                forall|k: int|
                    0 <= k < j ==> self.clients@[k].hand@.len() == old(
                        self,
                    ).clients@[k].hand@.len() + 7,
                forall|k: int|
                    j <= k < self.clients@.len() ==> self.clients@[k].hand@ == old(
                        self,
                    ).clients@[k].hand@,
                forall|k: int|
                    0 <= k < j ==> self.clients@[k].hand@ == old(self).clients@[k].hand@ + old(
                        self,
                    ).deck@.subrange(
                        old(self).deck@.len() - 7 * (k + 1),
                        old(self).deck@.len() - 7 * k,
                    ).reverse(),
                forall|x: Card|
                    card_count(self.deck@, x) + hands_card_count(self.clients@, x) == card_count(
                        old(self).deck@,
                        x,
                    ) + hands_card_count(old(self).clients@, x),
                self.total_cards() == old(self).total_cards(),
                plain_count(self.deck@) >= plain_count(old(self).deck@) - 7 * j,
                messages@ == old(messages)@ + Self::deal_broadcast(
                    old(self).clients@.subrange(0, j as int),
                    old(self).deck@,
                ),
            decreases n - j,
        {
            proof {
                lemma_plain_count_le_len(self.deck@);
            }
            let ghost deck0 = old(self).deck@;
            let ghost cur = self.deck@;
            let ghost pre_clients = self.clients@;
            self.deal_to(j, 7, messages);
            proof {
                let pre = old(self).clients@.subrange(0, j as int);
                let post = old(self).clients@.subrange(0, j + 1 as int);
                assert(post.drop_last() =~= pre);
                assert(post.last() == old(self).clients@[j as int]);
                assert(cur == deck0.take(deck0.len() - 7 * j));
                assert(cur.subrange(cur.len() - 7, cur.len() as int) =~= deck0.subrange(
                    deck0.len() - 7 * (j + 1),
                    deck0.len() - 7 * j,
                ));
                assert(messages@ =~= old(messages)@ + Self::deal_broadcast(post, deck0));
                assert forall|x: Card|
                    card_count(self.deck@, x) + hands_card_count(self.clients@, x) == card_count(
                        deck0,
                        x,
                    ) + hands_card_count(old(self).clients@, x) by {
                    lemma_hands_card_count_update_facts(
                        pre_clients,
                        self.clients@,
                        j as int,
                        x,
                    );
                }
            }
            j = j + 1;
        }
        proof {
            assert(old(self).clients@.subrange(0, old(self).clients@.len() as int) =~= old(
                self,
            ).clients@);
        }
    }

    /// Flips the initial discard card: draws until a plain colored number
    /// card appears, pushing skipped action and wild cards onto the discard
    /// pile, anchors the current color to the flipped card, and announces
    /// it to everyone.
    pub fn draw_first_card(&mut self, messages: &mut Vec<Outbound>)
        requires
            plain_count(old(self).deck@) >= 1,
        ensures
            final(self).clients@ == old(self).clients@,
            final(self).turn_index == old(self).turn_index,
            final(self).reverse_turn == old(self).reverse_turn,
            final(self).deck@.len() + final(self).discard@.len() == old(self).deck@.len() + old(
                self,
            ).discard@.len(),
            final(self).total_cards() == old(self).total_cards(),
            final(self).discard@.len() > old(self).discard@.len(),
            is_plain(final(self).discard@.last()),
            final(self).current_color == final(self).discard@.last().color,
            plain_count(final(self).deck@) >= plain_count(old(self).deck@) - 1,
            exists|m: int|
                0 <= m < old(self).deck@.len() && #[trigger] is_plain(old(self).deck@[m]) && (
                forall|k: int|
                    m < k < old(self).deck@.len() ==> !is_plain(old(self).deck@[k])) && final(self).deck@ == old(self).deck@.take(m) && final(self).discard@ == old(self).discard@
                    + old(self).deck@.subrange(m, old(self).deck@.len() as int).reverse()
                    && final(self).discard@.last() == old(self).deck@[m],
            forall|x: Card|
                card_count(final(self).deck@, x) + card_count(final(self).discard@, x)
                    == card_count(old(self).deck@, x) + card_count(old(self).discard@, x),
            final(messages)@ == old(messages)@ + Self::broadcast_all(
                old(self).clients@,
                Message::CardPlayed(final(self).discard@.last()),
            ),
    {
        let ghost deck0 = self.deck@;
        let ghost disc0 = self.discard@;
        proof {
            lemma_plain_count_le_len(deck0);
        }
        let ghost mut drawn_count: int = 1;
        let mut first_card = match self.deck.draw() {
            Some(c) => c,
            None => {
                proof {
                    assert(false);
                }
                Card { color: Color::Black, value: Value::Wild }
            },
        };
        proof {
            assert(self.deck@ =~= deck0.take(deck0.len() - 1));
            assert(self.discard@ =~= disc0 + deck0.subrange(
                deck0.len() as int,
                deck0.len() as int,
            ).reverse());
        }
        while first_card.color == Color::Black || first_card.value == Value::Skip
            || first_card.value == Value::Reverse || first_card.value == Value::DrawTwo
            || first_card.value == Value::Wild || first_card.value == Value::WildFour
            invariant
                self.clients@ == old(self).clients@,
                self.turn_index == old(self).turn_index,
                self.reverse_turn == old(self).reverse_turn,
                self.deck@.len() + self.discard@.len() + 1 == deck0.len() + disc0.len(),
                self.discard@.len() >= disc0.len(),
                1 <= drawn_count <= deck0.len(),
                deck0 == old(self).deck@,
                disc0 == old(self).discard@,
                self.deck@ == deck0.take(deck0.len() - drawn_count),
                first_card == deck0[deck0.len() - drawn_count],
                self.discard@ == disc0 + deck0.subrange(
                    deck0.len() - drawn_count + 1,
                    deck0.len() as int,
                ).reverse(),
                forall|k: int|
                    deck0.len() - drawn_count < k < deck0.len() ==> !is_plain(deck0[k]),
                plain_count(self.deck@) + if is_plain(first_card) {
                    1int
                } else {
                    0int
                } >= plain_count(deck0),
                plain_count(deck0) >= 1,
            decreases self.deck@.len(),
        {
            proof {
                assert(!is_plain(first_card));
                lemma_plain_count_le_len(self.deck@);
            }
            let ghost dpre = self.deck@;
            self.discard.add(first_card);
            first_card = match self.deck.draw() {
                Some(c) => c,
                None => {
                    proof {
                        assert(false);
                    }
                    Card { color: Color::Black, value: Value::Wild }
                },
            };
            proof {
                let n0 = deck0.len() as int;
                assert(self.discard@ =~= disc0 + deck0.subrange(
                    n0 - drawn_count,
                    n0,
                ).reverse()) by {
                    assert(deck0.subrange(n0 - drawn_count, n0).reverse() =~= deck0.subrange(
                        n0 - drawn_count + 1,
                        n0,
                    ).reverse().push(deck0[n0 - drawn_count]));
                }
                drawn_count = drawn_count + 1;
                assert(self.deck@ =~= deck0.take(n0 - drawn_count));
                assert(first_card == deck0[n0 - drawn_count]);
            }
        }
        proof {
            assert(is_plain(first_card));
        }
        self.discard.add(first_card);
        self.current_color = first_card.color;
        Self::broadcast(&self.clients, Message::CardPlayed(first_card), messages);
        proof {
            lemma_hand_total_pointwise(self.clients@, old(self).clients@);
            let n0 = deck0.len() as int;
            let m = n0 - drawn_count;
            assert(self.discard@ =~= disc0 + deck0.subrange(m, n0).reverse()) by {
                assert(deck0.subrange(m, n0).reverse() =~= deck0.subrange(
                    m + 1,
                    n0,
                ).reverse().push(deck0[m]));
            }
            assert(is_plain(deck0[m]));
            assert(self.discard@.last() == deck0[m]);
            assert forall|x: Card|
                card_count(self.deck@, x) + card_count(self.discard@, x) == card_count(deck0, x)
                    + card_count(disc0, x) by {
                lemma_card_count_concat(disc0, deck0.subrange(m, n0).reverse(), x);
                lemma_card_count_reverse(deck0.subrange(m, n0), x);
                lemma_card_count_concat(deck0.take(m), deck0.subrange(m, n0), x);
                assert(deck0 =~= deck0.take(m) + deck0.subrange(m, n0));
            }
        }
    }

    /// Builds a game over a caller-supplied deck order, without shuffling:
    /// announces identities, deals seven cards to each player, flips the
    /// initial plain card, and starts the first turn.
    pub fn new_with_deck(clients: Vec<Player>, deck: Deck, messages: &mut Vec<Outbound>) -> (g:
        Game)
        requires
            clients@.len() >= 1,
            ids_distinct(clients@),
            forall|k: int|
                0 <= k < clients@.len() ==> clients@[k].hand@.len() == 0 && clients@[k].state
                    == PlayerState::WaitingToPlay,
            deck@.len() >= 7 * clients@.len(),
            plain_count(deck@) >= 7 * clients@.len() + 1,
        ensures
            g.wf(),
            g.others_waiting(),
            g.total_cards() == deck@.len(),
            g.clients@.len() == clients@.len(),
            forall|k: int|
                0 <= k < clients@.len() ==> g.clients@[k].id == clients@[k].id
                    && g.clients@[k].score == clients@[k].score,
            forall|k: int| 0 <= k < clients@.len() ==> g.clients@[k].hand@.len() == 7,
            is_plain(g.discard@.last()),
            g.current_color == g.discard@.last().color,
            g.reverse_turn == false,
            g.turn_index == if clients@.len() == 1 {
                0int
            } else {
                1int
            },
            g.clients@[g.turn_index as int].state == PlayerState::PlayingCard
                || g.clients@[g.turn_index as int].state == PlayerState::DrawingCard,
            forall|x: Card| g.card_tally(x) == card_count(deck@, x),
            exists|flip: Card, rest: Seq<Outbound>|
                #![trigger Self::broadcast_all(clients@, Message::CardPlayed(flip)), rest.len()]
                is_plain(flip) && flip == g.discard@.last() && final(messages)@ == old(
                    messages,
                )@ + Self::ids_broadcast(clients@) + Self::deal_broadcast(clients@, deck@)
                    + Self::broadcast_all(clients@, Message::CardPlayed(flip)) + rest,
    {
        proof {
            lemma_plain_count_le_len(deck@);
        }
        let ghost n = clients@.len() as int;
        let mut game = Game {
            clients,
            deck,
            discard: Deck::empty(),
            turn_index: 0,
            reverse_turn: false,
            current_color: Color::Black,
        };
        proof {
            lemma_hand_total_zero(game.clients@);
            assert(game.total_cards() == deck@.len());
            if n >= 2 {
                assert(1int % n == 1) by (nonlinear_arith)
                    requires
                        n >= 2,
                ;
            } else {
                assert(1int % 1int == 0) by (nonlinear_arith);
            }
        }
        let ghost g_init = game;
        game.send_player_ids(messages);
        game.give_first_cards(messages);
        let ghost g_given = game;
        let ghost dealt = game.clients@;
        game.draw_first_card(messages);
        let ghost g_flipped = game;
        let ghost m3 = messages@;
        let ghost flip = game.discard@.last();
        game.pass_turn(false, messages);
        proof {
            assert forall|x: Card| game.card_tally(x) == card_count(deck@, x) by {
                lemma_hands_card_count_zero(g_init.clients@, x);
                assert(card_count(g_init.discard@, x) == 0);
                assert(g_init.card_tally(x) == card_count(deck@, x));
                assert(g_given.card_tally(x) == g_init.card_tally(x));
                assert(g_flipped.card_tally(x) == g_given.card_tally(x));
                lemma_hands_card_count_pointwise(game.clients@, g_flipped.clients@, x);
                assert(game.card_tally(x) == g_flipped.card_tally(x));
            }
        }
        proof {
            let ids = Self::ids_broadcast(clients@);
            let deal = Self::deal_broadcast(clients@, deck@);
            let cp = Self::broadcast_all(clients@, Message::CardPlayed(flip));
            lemma_broadcast_all_congruence(dealt, clients@, Message::CardPlayed(flip));
            assert(m3 == old(messages)@ + ids + deal + cp);
            let rest = messages@.skip(m3.len() as int);
            assert(messages@ =~= m3 + rest);
            assert(messages@ =~= old(messages)@ + ids + deal + cp + rest);
        }
        game
    }

    /// Builds a game from its participants: shuffles a full deck, announces
    /// identities, deals seven cards to each player, flips the initial
    /// plain card, and starts the first turn. After dealing, exactly 108
    /// cards are in play.
    pub fn new(clients: Vec<Player>, messages: &mut Vec<Outbound>) -> (g: Game)
        requires
            1 <= clients@.len() <= 10,
            ids_distinct(clients@),
            forall|k: int|
                0 <= k < clients@.len() ==> clients@[k].hand@.len() == 0 && clients@[k].state
                    == PlayerState::WaitingToPlay,
        ensures
            g.wf(),
            g.others_waiting(),
            g.total_cards() == 108,
            g.clients@.len() == clients@.len(),
            forall|k: int|
                0 <= k < clients@.len() ==> g.clients@[k].id == clients@[k].id
                    && g.clients@[k].score == clients@[k].score,
            forall|k: int| 0 <= k < clients@.len() ==> g.clients@[k].hand@.len() == 7,
            is_plain(g.discard@.last()),
            g.current_color == g.discard@.last().color,
            g.reverse_turn == false,
            g.turn_index == if clients@.len() == 1 {
                0int
            } else {
                1int
            },
            g.clients@[g.turn_index as int].state == PlayerState::PlayingCard
                || g.clients@[g.turn_index as int].state == PlayerState::DrawingCard,
            forall|x: Card| g.card_tally(x) == canonical_count(x),
    {
        let mut deck = Deck::full();
        deck.shuffle();
        let ghost shuffled = deck@;
        let g = Self::new_with_deck(clients, deck, messages);
        proof {
            assert forall|x: Card| g.card_tally(x) == canonical_count(x) by {
                assert(g.card_tally(x) == card_count(shuffled, x));
                assert(card_count(shuffled, x) == card_count(full_seq(), x));
                assert(card_count(full_seq(), x) == canonical_count(x));
            }
        }
        g
    }

    /// Score messages one recipient receives: every player's accumulated
    /// score, in player order.
    pub open spec fn score_run(players: Seq<Player>, to: PlayerId) -> Seq<Outbound>
        decreases players.len(),
    {
        if players.len() == 0 {
            Seq::empty()
        } else {
            Self::score_run(players.drop_last(), to).push(
                Outbound {
                    to,
                    msg: Message::PlayerScore(players.last().score, players.last().id),
                },
            )
        }
    }

    /// The full score table, sent to every recipient in player order.
    pub open spec fn scores_broadcast(recipients: Seq<Player>, players: Seq<Player>)
        -> Seq<Outbound>
        decreases recipients.len(),
    {
        if recipients.len() == 0 {
            Seq::empty()
        } else {
            Self::scores_broadcast(recipients.drop_last(), players) + Self::score_run(
                players,
                recipients.last().id,
            )
        }
    }

    /// Returns the first player, in sequence order, whose hand is empty.
    pub fn check_if_game_end(&self) -> (r: Option<PlayerId>)
        ensures
            match r {
                Some(id) => exists|i: int|
                    0 <= i < self.clients@.len() && self.clients@[i].hand@.len() == 0 && id
                        == self.clients@[i].id && (forall|k: int|
                        0 <= k < i ==> self.clients@[k].hand@.len() > 0),
                None => forall|i: int|
                    0 <= i < self.clients@.len() ==> self.clients@[i].hand@.len() > 0,
            },
    {
        let mut i: usize = 0;
        while i < self.clients.len()
            invariant
                i <= self.clients@.len(),
                forall|k: int| 0 <= k < i ==> self.clients@[k].hand@.len() > 0,
            decreases self.clients@.len() - i,
        {
            if self.clients[i].hand.len() == 0 {
                return Some(self.clients[i].id);
            }
            i = i + 1;
        }
        None
    }

    /// Adds the value of every card left in each hand to that player's
    /// accumulated score, then sends the complete score table to every
    /// player.
    pub fn compute_scores(&mut self, messages: &mut Vec<Outbound>)
        requires
            forall|k: int|
                0 <= k < old(self).clients@.len() ==> old(self).clients@[k].score + 50 * old(
                    self,
                ).clients@[k].hand@.len() <= u32::MAX,
        ensures
            final(self).clients@.len() == old(self).clients@.len(),
            forall|k: int|
                0 <= k < old(self).clients@.len() ==> final(self).clients@[k].id == old(
                    self,
                ).clients@[k].id && final(self).clients@[k].hand == old(self).clients@[k].hand
                    && final(self).clients@[k].state == old(self).clients@[k].state && final(self).clients@[k].score == old(self).clients@[k].score + hand_points(
                    old(self).clients@[k].hand@,
                ),
            final(self).deck == old(self).deck,
            final(self).discard == old(self).discard,
            final(self).turn_index == old(self).turn_index,
            final(self).reverse_turn == old(self).reverse_turn,
            final(self).current_color == old(self).current_color,
            final(self).total_cards() == old(self).total_cards(),
            final(messages)@ == old(messages)@ + Self::scores_broadcast(
                final(self).clients@,
                final(self).clients@,
            ),
    {
        let n = self.clients.len();
        let mut j: usize = 0;
        while j < n
            invariant
                j <= n,
                n == self.clients@.len(),
                self.clients@.len() == old(self).clients@.len(),
                forall|k: int|
                    0 <= k < n ==> self.clients@[k].id == old(self).clients@[k].id
                        && self.clients@[k].hand == old(self).clients@[k].hand
                        && self.clients@[k].state == old(self).clients@[k].state,
                forall|k: int|
                    0 <= k < n ==> old(self).clients@[k].score + 50 * old(
                        self,
                    ).clients@[k].hand@.len() <= u32::MAX,
                forall|k: int|
                    0 <= k < j ==> self.clients@[k].score == old(self).clients@[k].score
                        + hand_points(old(self).clients@[k].hand@),
                forall|k: int|
                    j <= k < n ==> self.clients@[k].score == old(self).clients@[k].score,
                self.deck == old(self).deck,
                self.discard == old(self).discard,
                self.turn_index == old(self).turn_index,
                self.reverse_turn == old(self).reverse_turn,
                self.current_color == old(self).current_color,
            decreases n - j,
        {
            let ghost hand = self.clients@[j as int].hand@;
            let hand_len = self.clients[j].hand.len();
            let mut sum: u32 = 0;
            let mut i: usize = 0;
            proof {
                lemma_hand_points_bounds(hand.take(0));
                assert(50 * hand.len() <= u32::MAX);
            }
            while i < hand_len
                invariant
                    i <= hand_len,
                    j < self.clients@.len(),
                    hand == self.clients@[j as int].hand@,
                    hand_len == hand.len(),
                    50 * hand.len() <= u32::MAX,
                    sum == hand_points(hand.take(i as int)),
                    sum <= 50 * i,
                decreases hand_len - i,
            {
                let pts = self.clients[j].hand[i].points();
                proof {
                    assert(hand.take(i + 1 as int).drop_last() =~= hand.take(i as int));
                    assert(hand.take(i + 1 as int).last() == hand[i as int]);
                    assert(pts <= 50);
                }
                sum = sum + pts;
                i = i + 1;
            }
            proof {
                assert(hand.take(hand.len() as int) =~= hand);
                lemma_hand_points_bounds(hand);
            }
            let new_score = self.clients[j].score + sum;
            self.clients[j].score = new_score;
            j = j + 1;
        }
        proof {
            lemma_hand_total_pointwise(self.clients@, old(self).clients@);
        }
        let ghost base = messages@;
        let ghost fin = self.clients@;
        let mut r: usize = 0;
        while r < self.clients.len()
            invariant
                r <= fin.len(),
                fin == self.clients@,
                messages@ == base + Self::scores_broadcast(fin.subrange(0, r as int), fin),
            decreases fin.len() - r,
        {
            let to = self.clients[r].id;
            let ghost mid = messages@;
            let mut p: usize = 0;
            while p < self.clients.len()
                invariant
                    p <= fin.len(),
                    r < fin.len(),
                    fin == self.clients@,
                    to == fin[r as int].id,
                    messages@ == mid + Self::score_run(fin.subrange(0, p as int), to),
                decreases fin.len() - p,
            {
                messages.push(
                    Outbound {
                        to,
                        msg: Message::PlayerScore(self.clients[p].score, self.clients[p].id),
                    },
                );
                proof {
                    let pre = fin.subrange(0, p as int);
                    let post = fin.subrange(0, p + 1 as int);
                    assert(post.drop_last() =~= pre);
                    assert(post.last() == fin[p as int]);
                    assert(messages@ =~= mid + Self::score_run(post, to));
                }
                p = p + 1;
            }
            proof {
                let pre = fin.subrange(0, r as int);
                let post = fin.subrange(0, r + 1 as int);
                assert(post.drop_last() =~= pre);
                assert(post.last() == fin[r as int]);
                assert(fin.subrange(0, fin.len() as int) =~= fin);
                assert(messages@ =~= base + Self::scores_broadcast(post, fin));
            }
            r = r + 1;
        }
        proof {
            assert(fin.subrange(0, fin.len() as int) =~= fin);
        }
    }

    /// Draws `count` cards for the player whose turn it is, announcing each
    /// card to that player alone. Recycle-aware: the discard top, the
    /// current-color anchor, survives.
    fn penalty_draw(&mut self, count: usize, messages: &mut Vec<Outbound>)
        requires
            old(self).wf(),
            old(self).deck@.len() + old(self).discard@.len() >= count + 1,
        ensures
            final(self).wf(),
            final(self).clients@.len() == old(self).clients@.len(),
            forall|k: int|
                0 <= k < old(self).clients@.len() && k != old(self).turn_index ==> final(self).clients@[k] == old(self).clients@[k],
            final(self).clients@[old(self).turn_index as int].id == old(self).clients@[old(
                self,
            ).turn_index as int].id,
            final(self).clients@[old(self).turn_index as int].state == old(self).clients@[old(
                self,
            ).turn_index as int].state,
            final(self).clients@[old(self).turn_index as int].score == old(self).clients@[old(
                self,
            ).turn_index as int].score,
            final(self).deck@.len() + final(self).discard@.len() == old(self).deck@.len() + old(
                self,
            ).discard@.len() - count,
            final(self).discard@.len() >= 1,
            final(self).discard@.last() == old(self).discard@.last(),
            final(self).turn_index == old(self).turn_index,
            final(self).reverse_turn == old(self).reverse_turn,
            final(self).current_color == old(self).current_color,
            final(self).total_cards() == old(self).total_cards(),
            exists|drawn: Seq<Card>|
                drawn.len() == count && final(self).clients@[old(self).turn_index as int].hand@
                    == old(self).clients@[old(self).turn_index as int].hand@ + drawn && final(messages)@ == old(messages)@ + Self::draw_run(
                    old(self).clients@[old(self).turn_index as int].id,
                    drawn,
                ),
    {
        let t = self.turn_index;
        let id = self.clients[t].id;
        let ghost hand0 = self.clients@[t as int].hand@;
        let ghost base = messages@;
        let ghost mut drawn: Seq<Card> = Seq::empty();
        proof {
            assert(hand0 + drawn =~= hand0);
        }
        let mut i: usize = 0;
        while i < count
            invariant
                i <= count,
                t == old(self).turn_index,
                t < self.clients@.len(),
                id == old(self).clients@[t as int].id,
                self.clients@.len() == old(self).clients@.len(),
                forall|k: int|
                    0 <= k < self.clients@.len() && k != t ==> self.clients@[k] == old(
                        self,
                    ).clients@[k],
                self.clients@[t as int].id == old(self).clients@[t as int].id,
                self.clients@[t as int].state == old(self).clients@[t as int].state,
                self.clients@[t as int].score == old(self).clients@[t as int].score,
                self.clients@[t as int].hand@ == hand0 + drawn,
                hand0 == old(self).clients@[t as int].hand@,
                drawn.len() == i,
                self.deck@.len() + self.discard@.len() == old(self).deck@.len() + old(
                    self,
                ).discard@.len() - i,
                old(self).deck@.len() + old(self).discard@.len() >= count + 1,
                old(self).discard@.len() >= 1,
                self.discard@.len() >= 1,
                self.discard@.last() == old(self).discard@.last(),
                self.reverse_turn == old(self).reverse_turn,
                self.current_color == old(self).current_color,
                self.turn_index == t,
                self.total_cards() == old(self).total_cards(),
                messages@ == base + Self::draw_run(id, drawn),
            decreases count - i,
        {
            let ghost pre = self.clients@;
            let c = self.draw_card();
            self.clients[t].hand.push(c);
            messages.push(Outbound { to: id, msg: Message::DrawCard(c) });
            proof {
                let prev = drawn;
                drawn = drawn.push(c);
                assert(drawn.drop_last() =~= prev);
                assert(self.clients@[t as int].hand@ =~= hand0 + drawn);
                lemma_hand_total_update_facts(pre, self.clients@, t as int);
            }
            i = i + 1;
        }
        proof {
            lemma_ids_distinct_pointwise(old(self).clients@, self.clients@);
        }
    }

    /// Broadcast that announces a play: every waiting player learns the
    /// card; when the play left its player with one card, waiting players
    /// are prompted to counter and the others to declare.
    pub open spec fn played_broadcast(players: Seq<Player>, card: Card, in_uno: bool) -> Seq<
        Outbound,
    >
        decreases players.len(),
    {
        if players.len() == 0 {
            Seq::empty()
        } else {
            let p = players.last();
            Self::played_broadcast(players.drop_last(), card, in_uno) + if p.state
                == PlayerState::WaitingToPlay {
                if in_uno {
                    seq![
                        Outbound { to: p.id, msg: Message::CardPlayed(card) },
                        Outbound { to: p.id, msg: Message::CounterUno },
                    ]
                } else {
                    seq![Outbound { to: p.id, msg: Message::CardPlayed(card) }]
                }
            } else {
                if in_uno {
                    seq![Outbound { to: p.id, msg: Message::Uno }]
                } else {
                    Seq::empty()
                }
            }
        }
    }

    /// The acknowledgement pair each player receives when a declaration or
    /// a challenge is processed.
    pub open spec fn stop_broadcast(players: Seq<Player>) -> Seq<Outbound>
        decreases players.len(),
    {
        if players.len() == 0 {
            Seq::empty()
        } else {
            Self::stop_broadcast(players.drop_last()) + seq![
                Outbound { to: players.last().id, msg: Message::StopUno },
                Outbound { to: players.last().id, msg: Message::StopCounterUno },
            ]
        }
    }

    /// Sends the stop acknowledgement pair to every player.
    fn send_stop_pair(clients: &Vec<Player>, messages: &mut Vec<Outbound>)
        ensures
            final(messages)@ == old(messages)@ + Self::stop_broadcast(clients@),
    {
        let ghost base = messages@;
        let mut j: usize = 0;
        while j < clients.len()
            invariant
                j <= clients@.len(),
                messages@ == base + Self::stop_broadcast(clients@.subrange(0, j as int)),
            decreases clients@.len() - j,
        {
            messages.push(Outbound { to: clients[j].id, msg: Message::StopUno });
            messages.push(Outbound { to: clients[j].id, msg: Message::StopCounterUno });
            proof {
                let pre = clients@.subrange(0, j as int);
                let post = clients@.subrange(0, j + 1 as int);
                assert(post.drop_last() =~= pre);
                assert(post.last() == clients@[j as int]);
                assert(messages@ =~= base + Self::stop_broadcast(post));
            }
            j = j + 1;
        }
        proof {
            assert(clients@.subrange(0, clients@.len() as int) =~= clients@);
        }
    }

    /// State a just-reduced hand moves its player into when the play also
    /// left one card; outside the choosing states this is the plain Uno
    /// phase.
    pub open spec fn post_play_state(value: Value, in_uno: bool) -> PlayerState {
        match value {
            Value::Wild => if in_uno {
                PlayerState::ChoosingColorWildUno
            } else {
                PlayerState::ChoosingColorWild
            },
            Value::WildFour => if in_uno {
                PlayerState::ChoosingColorWildFourUno
            } else {
                PlayerState::ChoosingColorWildFour
            },
            _ => if in_uno {
                PlayerState::Uno
            } else {
                PlayerState::PlayingCard
            },
        }
    }

    /// Full effect of a validated, present play on the engine state and on
    /// the outbound stream `appended`: the card moves from the hand to the
    /// discard top and anchors the color; the hand shrinking to one card
    /// triggers the declaration phase; Reverse flips direction (acting as a
    /// skip between two players), Skip hops the turn, DrawTwo hops and
    /// forces two draws, and the wild family waits for a color choice.
    /// When a hopping play (Skip, DrawTwo, or Reverse between two players)
    /// also reduces the hand to one card, the mid-turn pass that performs
    /// the hop resets every player to waiting, so the declaration state set
    /// a moment earlier is overwritten; the declaration prompts have been
    /// broadcast by then, and the turn still does not pass on this call.
    pub open spec fn play_transition(
        g0: Game,
        g1: Game,
        card: Card,
        appended: Seq<Outbound>,
        pass: bool,
    ) -> bool {
        let t0 = g0.turn_index as int;
        let n = g0.clients@.len() as int;
        let hand0 = g0.clients@[t0].hand@;
        let in_uno = hand0.len() == 2;
        let flipped = Game { reverse_turn: !g0.reverse_turn, ..g0 };
        let t1 = if card.value == Value::Reverse {
            flipped.next_index()
        } else {
            g0.next_index()
        };
        let hopped = card.value == Value::Skip || card.value == Value::DrawTwo || (card.value
            == Value::Reverse && n == 2);
        let nb1 = if t1 == t0 {
            (hand0.len() - 1) as usize
        } else {
            g0.clients@[t1].hand@.len() as usize
        };
        let tb = Self::turn_broadcast(g0.clients@, g0.clients@[t1].id, nb1, card.color);
        &&& g1.clients@.len() == n
        &&& g1.current_color == card.color
        &&& g1.discard@.len() >= 1
        &&& g1.discard@.last() == card
        &&& g1.reverse_turn == (if card.value == Value::Reverse {
            !g0.reverse_turn
        } else {
            g0.reverse_turn
        })
        &&& pass == (if in_uno {
            false
        } else {
            card.value != Value::Wild && card.value != Value::WildFour
        })
        &&& g1.turn_index as int == (if hopped {
            t1
        } else {
            t0
        })
        &&& (forall|k: int|
            0 <= k < n ==> g1.clients@[k].id == g0.clients@[k].id && g1.clients@[k].score
                == g0.clients@[k].score)
        &&& (forall|k: int| 0 <= k < n && k != t0 && k != t1 ==> g1.clients@[k].hand == g0.clients@[k].hand)
        &&& (hopped ==> forall|k: int|
            0 <= k < n ==> g1.clients@[k].state == PlayerState::WaitingToPlay)
        &&& (!hopped ==> forall|k: int| 0 <= k < n && k != t0 ==> g1.clients@[k] == g0.clients@[k])
        &&& (!hopped ==> g1.clients@[t0].state == Self::post_play_state(card.value, in_uno))
        &&& g1.deck@.len() + g1.discard@.len() == g0.deck@.len() + g0.discard@.len() + 1 - (
        if card.value == Value::DrawTwo {
            2int
        } else {
            0int
        })
        &&& (card.value != Value::DrawTwo ==> g1.deck == g0.deck && g1.discard@ == g0.discard@.push(
            card,
        ))
        &&& (card.value != Value::DrawTwo ==> exists|io: int|
            0 <= io < hand0.len() && hand0[io] == card && g1.clients@[t0].hand@ == hand0.remove(io))
        &&& (card.value != Value::DrawTwo && t1 != t0 ==> g1.clients@[t1].hand == g0.clients@[t1].hand)
        &&& (card.value != Value::DrawTwo ==> appended == Self::played_broadcast(
            g0.clients@,
            card,
            in_uno,
        ) + if hopped {
            tb
        } else {
            Seq::<Outbound>::empty()
        })
        &&& (card.value == Value::DrawTwo ==> exists|io: int, drawn: Seq<Card>|
            {
                let pre = if t1 == t0 {
                    hand0.remove(io)
                } else {
                    g0.clients@[t1].hand@
                };
                &&& 0 <= io < hand0.len()
                &&& #[trigger] hand0[io] == card
                &&& #[trigger] drawn.len() == 2
                &&& (t1 != t0 ==> g1.clients@[t0].hand@ == hand0.remove(io))
                &&& g1.clients@[t1].hand@ == pre + drawn
                &&& appended == Self::played_broadcast(g0.clients@, card, in_uno) + tb
                    + Self::draw_run(g0.clients@[t1].id, drawn)
            })
    }

    /// Whether some player carries this identity.
    pub open spec fn has_player(players: Seq<Player>, id: PlayerId) -> bool {
        exists|i: int| 0 <= i < players.len() && players[i].id == id
    }

    /// The position of the player with this identity; meaningful when
    /// `has_player` holds and ids are distinct.
    pub open spec fn player_index(players: Seq<Player>, id: PlayerId) -> int {
        choose|i: int| 0 <= i < players.len() && players[i].id == id
    }

    /// Draw supply a command may consume: two cards fit a voluntary draw or
    /// a draw-two play, three a counter-challenge, five the wild-four
    /// penalty; spending past the supply would exhaust both piles, which
    /// correct bookkeeping rules out.
    pub open spec fn supply_needed(self, id: PlayerId, command: GameCommand) -> int {
        if !Self::has_player(self.clients@, id) {
            0
        } else {
            let st = self.clients@[Self::player_index(self.clients@, id)].state;
            match command {
                GameCommand::PlayCard(c) => if st == PlayerState::PlayingCard && c.value
                    == Value::DrawTwo {
                    2int
                } else {
                    0int
                },
                GameCommand::ColorChosen(_) => if is_choosing_color_wild_four(st) {
                    5int
                } else {
                    0int
                },
                GameCommand::DrawCard => if st == PlayerState::DrawingCard {
                    2int
                } else {
                    0int
                },
                GameCommand::Uno => 0int,
                GameCommand::CounterUno => 3int,
            }
        }
    }

    /// Position of the player with identity `id`, if any.
    fn find_index(clients: &Vec<Player>, id: PlayerId) -> (r: Option<usize>)
        ensures
            match r {
                Some(i) => i < clients@.len() && clients@[i as int].id == id,
                None => !Self::has_player(clients@, id),
            },
    {
        let mut i: usize = 0;
        while i < clients.len()
            invariant
                i <= clients@.len(),
                forall|k: int| 0 <= k < i ==> clients@[k].id != id,
            decreases clients@.len() - i,
        {
            if clients[i].id == id {
                return Some(i);
            }
            i = i + 1;
        }
        None
    }

    /// Position of the first copy of `card` in `hand`, if any.
    fn find_card(hand: &Vec<Card>, card: Card) -> (r: Option<usize>)
        ensures
            match r {
                Some(i) => i < hand@.len() && hand@[i as int] == card,
                None => forall|k: int| 0 <= k < hand@.len() ==> hand@[k] != card,
            },
    {
        let mut i: usize = 0;
        while i < hand.len()
            invariant
                i <= hand@.len(),
                forall|k: int| 0 <= k < i ==> hand@[k] != card,
            decreases hand@.len() - i,
        {
            if hand[i] == card {
                return Some(i);
            }
            i = i + 1;
        }
        None
    }

    /// Applies a validated play whose card sits at position `io` of the
    /// acting player's hand. The acting player is the one whose turn it is
    /// and is in the playing state.
    #[verifier::rlimit(100)]
    #[verifier::spinoff_prover]
    fn play_card_effects(&mut self, io: usize, messages: &mut Vec<Outbound>) -> (pass: bool)
        requires
            old(self).wf(),
            old(self).others_waiting(),
            old(self).clients@[old(self).turn_index as int].state == PlayerState::PlayingCard,
            io < old(self).clients@[old(self).turn_index as int].hand@.len(),
            old(self).clients@[old(self).turn_index as int].hand@[io as int].value
                == Value::DrawTwo ==> old(self).deck@.len() + old(self).discard@.len() >= 2,
        ensures
            final(self).wf(),
            final(self).others_waiting(),
            final(self).total_cards() == old(self).total_cards(),
            final(messages)@.len() >= old(messages)@.len(),
            final(messages)@.take(old(messages)@.len() as int) == old(messages)@,
            Self::play_transition(
                *old(self),
                *final(self),
                old(self).clients@[old(self).turn_index as int].hand@[io as int],
                final(messages)@.skip(old(messages)@.len() as int),
                pass,
            ),
    {
        let t = self.turn_index;
        let ghost g0 = *old(self);
        let ghost hand0 = self.clients@[t as int].hand@;
        let card = self.clients[t].hand.remove(io);
        let ghost g_rm = self.clients@;
        proof {
            lemma_hand_total_update_facts(g0.clients@, self.clients@, t as int);
        }
        self.discard.add(card);
        self.current_color = card.color;
        let hand_len = self.clients[t].hand.len();
        let in_uno = hand_len == 1;
        if in_uno {
            // the acting player was in the playing state, so the hand
            // shrinking to one card enters the plain declaration phase
            self.clients[t].state = PlayerState::Uno;
        }
        let ghost mid = self.clients@;
        let ghost base = messages@;
        proof {
            lemma_hand_total_pointwise(mid, g_rm);
        }
        let mut k: usize = 0;
        while k < self.clients.len()
            invariant
                k <= mid.len(),
                mid == self.clients@,
                messages@ == base + Self::played_broadcast(
                    mid.subrange(0, k as int),
                    card,
                    in_uno,
                ),
            decreases mid.len() - k,
        {
            if self.clients[k].state == PlayerState::WaitingToPlay {
                messages.push(Outbound { to: self.clients[k].id, msg: Message::CardPlayed(card) });
                if in_uno {
                    messages.push(Outbound { to: self.clients[k].id, msg: Message::CounterUno });
                }
            } else {
                if in_uno {
                    messages.push(Outbound { to: self.clients[k].id, msg: Message::Uno });
                }
            }
            proof {
                let pre = mid.subrange(0, k as int);
                let post = mid.subrange(0, k + 1 as int);
                assert(post.drop_last() =~= pre);
                assert(post.last() == mid[k as int]);
                assert(messages@ =~= base + Self::played_broadcast(post, card, in_uno));
            }
            k = k + 1;
        }
        proof {
            assert(mid.subrange(0, mid.len() as int) =~= mid);
            lemma_played_broadcast_congruence(g0.clients@, mid, card, in_uno);
            assert(messages@ == base + Self::played_broadcast(g0.clients@, card, in_uno));
        }
        let pass: bool = match card.value {
            Value::Reverse => {
                self.reverse_turn = !self.reverse_turn;
                if self.clients.len() == 2 {
                    let ghost pre = *self;
                    self.pass_turn(true, messages);
                    proof {
                        assert(self.turn_index as int == pre.next_index());
                        lemma_turn_broadcast_congruence(
                            g0.clients@,
                            pre.clients@,
                            self.clients@[self.turn_index as int].id,
                            card.color,
                        );
                    }
                }
                true
            },
            Value::DrawTwo => {
                let ghost pre = *self;
                self.pass_turn(true, messages);
                proof {
                    assert(self.turn_index as int == pre.next_index());
                    lemma_turn_broadcast_congruence(
                        g0.clients@,
                        pre.clients@,
                        self.clients@[self.turn_index as int].id,
                        card.color,
                    );
                }
                self.penalty_draw(2, messages);
                true
            },
            Value::Skip => {
                let ghost pre = *self;
                self.pass_turn(true, messages);
                proof {
                    assert(self.turn_index as int == pre.next_index());
                    lemma_turn_broadcast_congruence(
                        g0.clients@,
                        pre.clients@,
                        self.clients@[self.turn_index as int].id,
                        card.color,
                    );
                }
                true
            },
            Value::Wild => {
                self.clients[t].state = if hand_len == 1 {
                    PlayerState::ChoosingColorWildUno
                } else {
                    PlayerState::ChoosingColorWild
                };
                proof {
                    lemma_hand_total_pointwise(self.clients@, mid);
                }
                false
            },
            Value::WildFour => {
                self.clients[t].state = if hand_len == 1 {
                    PlayerState::ChoosingColorWildFourUno
                } else {
                    PlayerState::ChoosingColorWildFour
                };
                proof {
                    lemma_hand_total_pointwise(self.clients@, mid);
                }
                false
            },
            _ => true,
        };
        proof {
            let t0 = g0.turn_index as int;
            let n = g0.clients@.len() as int;
            let pb = Self::played_broadcast(g0.clients@, card, in_uno);
            let flipped = Game { reverse_turn: !g0.reverse_turn, ..g0 };
            let t1 = if card.value == Value::Reverse {
                flipped.next_index()
            } else {
                g0.next_index()
            };
            let hopped = card.value == Value::Skip || card.value == Value::DrawTwo || (card.value
                == Value::Reverse && n == 2);
            let nb1 = if t1 == t0 {
                (hand0.len() - 1) as usize
            } else {
                g0.clients@[t1].hand@.len() as usize
            };
            let tb = Self::turn_broadcast(g0.clients@, g0.clients@[t1].id, nb1, card.color);
            assert(hand0[io as int] == card);
            if !hopped {
                assert(messages@ == base + pb);
                assert((base + pb).take(base.len() as int) =~= base);
                assert((base + pb).skip(base.len() as int) =~= pb);
            } else {
                assert(self.turn_index as int == t1);
                if card.value == Value::DrawTwo {
                    let drawn = choose|drawn: Seq<Card>|
                        drawn.len() == 2 && self.clients@[t1].hand@ == mid[t1].hand@ + drawn
                            && messages@ == (base + pb + tb) + Self::draw_run(
                            mid[t1].id,
                            drawn,
                        );
                    assert(#[trigger] drawn.len() == 2);
                    let app = pb + tb + Self::draw_run(g0.clients@[t1].id, drawn);
                    assert(messages@ =~= base + app);
                    assert((base + app).take(base.len() as int) =~= base);
                    assert((base + app).skip(base.len() as int) =~= app);
                } else {
                    assert(messages@ == (base + pb) + tb);
                    assert(messages@ =~= base + (pb + tb));
                    assert((base + (pb + tb)).take(base.len() as int) =~= base);
                    assert((base + (pb + tb)).skip(base.len() as int) =~= pb + tb);
                }
            }
        }
        proof {
            lemma_ids_distinct_pointwise(g0.clients@, self.clients@);
        }
        if in_uno {
            false
        } else {
            pass
        }
    }

    /// Interprets one validated command from `player_id` against the
    /// current state, mutates the game, appends the outbound messages, and
    /// returns whether the turn should now pass to the next player. An
    /// unknown identity, a command that does not fit the sender's state,
    /// and an illegal or absent card all leave the game unchanged; an
    /// attempted play is answered with an explicit validity notification,
    /// negative unless the named card is in the hand and passes the
    /// legality rule.
    #[verifier::rlimit(100)]
    #[verifier::spinoff_prover]
    pub fn execute_commands(
        &mut self,
        player_id: PlayerId,
        command: GameCommand,
        messages: &mut Vec<Outbound>,
    ) -> (pass: bool)
        requires
            old(self).wf(),
            old(self).others_waiting(),
            old(self).deck@.len() + old(self).discard@.len() >= old(self).supply_needed(
                player_id,
                command,
            ),
        ensures
            final(self).wf(),
            final(self).others_waiting(),
            final(self).total_cards() == old(self).total_cards(),
            final(self).clients@.len() == old(self).clients@.len(),
            forall|k: int|
                0 <= k < old(self).clients@.len() ==> final(self).clients@[k].id == old(
                    self,
                ).clients@[k].id && final(self).clients@[k].score == old(self).clients@[k].score,
            !Self::has_player(old(self).clients@, player_id) ==> *final(self) == *old(self) && pass
                == false && final(messages)@ == old(messages)@,
            Self::has_player(old(self).clients@, player_id) ==> {
                let ci = Self::player_index(old(self).clients@, player_id);
                let st = old(self).clients@[ci].state;
                let t0 = old(self).turn_index as int;
                let top0 = old(self).discard@.last();
                let col0 = old(self).current_color;
                match command {
                    GameCommand::PlayCard(card) => {
                        &&& (st != PlayerState::PlayingCard ==> *final(self) == *old(self) && pass
                            == false && final(messages)@ == old(messages)@ + seq![
                            Outbound { to: player_id, msg: Message::CardValidation(false) },
                        ])
                        &&& (st == PlayerState::PlayingCard ==> ci == t0)
                        &&& (st == PlayerState::PlayingCard && !(spec_can_be_played(
                            card,
                            top0,
                            col0,
                        ) && old(self).clients@[t0].hand@.contains(card)) ==> *final(self) == *old(
                            self,
                        ) && pass == false && final(messages)@ == old(messages)@ + seq![
                            Outbound { to: player_id, msg: Message::CardValidation(false) },
                        ])
                        &&& (st == PlayerState::PlayingCard && spec_can_be_played(card, top0, col0)
                            && old(self).clients@[t0].hand@.contains(card) ==> final(messages)@.take(old(messages)@.len() + 1 as int) == old(messages)@ + seq![
                            Outbound { to: player_id, msg: Message::CardValidation(true) },
                        ] && Self::play_transition(
                            *old(self),
                            *final(self),
                            card,
                            final(messages)@.skip(old(messages)@.len() + 1 as int),
                            pass,
                        ))
                    },
                    GameCommand::ColorChosen(color) => {
                        &&& (!is_choosing_color(st) ==> *final(self) == *old(self) && pass == false
                            && final(messages)@ == old(messages)@)
                        &&& (is_choosing_color(st) ==> ci == t0 && pass == true && final(self).current_color == color)
                        &&& (is_choosing_color(st) && !is_choosing_color_wild_four(st) ==> final(self).clients@ == old(self).clients@ && final(self).deck == old(self).deck
                            && final(self).discard == old(self).discard && final(self).turn_index
                            == old(self).turn_index && final(self).reverse_turn == old(
                            self,
                        ).reverse_turn && final(messages)@ == old(messages)@)
                        &&& (is_choosing_color_wild_four(st) ==> {
                            let t1 = old(self).next_index();
                            &&& final(self).turn_index == t1
                            &&& final(self).reverse_turn == old(self).reverse_turn
                            &&& forall|k: int|
                                0 <= k < old(self).clients@.len() ==> final(self).clients@[k].state
                                    == PlayerState::WaitingToPlay
                            &&& forall|k: int|
                                0 <= k < old(self).clients@.len() && k != t1 ==> final(self).clients@[k].hand == old(self).clients@[k].hand
                            &&& final(self).clients@[t1].hand@.len() == old(
                                self,
                            ).clients@[t1].hand@.len() + 4
                            &&& final(self).deck@.len() + final(self).discard@.len() == old(
                                self,
                            ).deck@.len() + old(self).discard@.len() - 4
                            &&& final(self).discard@.last() == top0
                            &&& exists|drawn: Seq<Card>|
                                #[trigger] drawn.len() == 4 && final(self).clients@[t1].hand@
                                    == old(self).clients@[t1].hand@ + drawn && final(messages)@
                                    == old(messages)@ + Self::turn_broadcast(
                                    old(self).clients@,
                                    old(self).clients@[t1].id,
                                    old(self).clients@[t1].hand@.len() as usize,
                                    color,
                                ) + Self::draw_run(old(self).clients@[t1].id, drawn)
                        })
                    },
                    GameCommand::DrawCard => {
                        &&& (st != PlayerState::DrawingCard ==> *final(self) == *old(self) && pass
                            == false && final(messages)@ == old(messages)@)
                        &&& (st == PlayerState::DrawingCard ==> {
                            &&& ci == t0
                            &&& final(self).turn_index == old(self).turn_index
                            &&& final(self).reverse_turn == old(self).reverse_turn
                            &&& final(self).current_color == col0
                            &&& final(self).deck@.len() + final(self).discard@.len() == old(
                                self,
                            ).deck@.len() + old(self).discard@.len() - 1
                            &&& final(self).discard@.last() == top0
                            &&& forall|k: int|
                                0 <= k < old(self).clients@.len() && k != t0 ==> final(self).clients@[k] == old(self).clients@[k]
                            &&& exists|c: Card|
                                #[trigger] old(self).clients@[t0].hand@.push(c) == final(self).clients@[t0].hand@ && final(messages)@ == old(messages)@ + seq![
                                    Outbound { to: player_id, msg: Message::DrawCard(c) },
                                ] && (spec_can_play(
                                    old(self).clients@[t0].hand@.push(c),
                                    top0,
                                    col0,
                                ) ==> final(self).clients@[t0].state == PlayerState::PlayingCard
                                    && pass == false) && (!spec_can_play(
                                    old(self).clients@[t0].hand@.push(c),
                                    top0,
                                    col0,
                                ) ==> final(self).clients@[t0].state
                                    == PlayerState::WaitingToPlay && pass == true)
                        })
                    },
                    GameCommand::Uno => {
                        &&& *final(self) == *old(self)
                        &&& pass == true
                        &&& final(messages)@ == old(messages)@ + Self::stop_broadcast(
                            old(self).clients@,
                        )
                    },
                    GameCommand::CounterUno => {
                        &&& pass == true
                        &&& final(self).turn_index == old(self).turn_index
                        &&& final(self).reverse_turn == old(self).reverse_turn
                        &&& final(self).current_color == col0
                        &&& final(self).discard@.last() == top0
                        &&& final(self).deck@.len() + final(self).discard@.len() == old(
                            self,
                        ).deck@.len() + old(self).discard@.len() - 2
                        &&& forall|k: int|
                            0 <= k < old(self).clients@.len() ==> final(self).clients@[k].state
                                == old(self).clients@[k].state
                        &&& forall|k: int|
                            0 <= k < old(self).clients@.len() && k != t0 ==> final(self).clients@[k] == old(self).clients@[k]
                        &&& exists|drawn: Seq<Card>|
                            #[trigger] drawn.len() == 2 && final(self).clients@[t0].hand@ == old(
                                self,
                            ).clients@[t0].hand@ + drawn && final(messages)@ == old(messages)@
                                + Self::stop_broadcast(old(self).clients@) + Self::draw_run(
                                old(self).clients@[t0].id,
                                drawn,
                            )
                    },
                }
            },
    {
        let ci = match Self::find_index(&self.clients, player_id) {
            Some(ci) => ci,
            None => {
                return false;
            },
        };
        proof {
            let pi = Self::player_index(self.clients@, player_id);
            assert(Self::has_player(self.clients@, player_id));
            assert(0 <= pi < self.clients@.len() && self.clients@[pi].id == player_id);
            assert(ci as int == pi);
        }
        match command {
            GameCommand::PlayCard(card) => {
                if self.clients[ci].state == PlayerState::PlayingCard {
                    proof {
                        assert(ci == self.turn_index);
                    }
                    let top = match self.discard.top() {
                        Some(c) => c,
                        None => {
                            proof {
                                assert(false);
                            }
                            Card { color: Color::Black, value: Value::Wild }
                        },
                    };
                    let playable = card.can_be_played(top, self.current_color);
                    // the named card must be present in the hand and pass the
                    // legality rule; anything less is answered with an
                    // explicit negative validity notification and no mutation
                    let found = Self::find_card(&self.clients[ci].hand, card);
                    let valid = playable && found.is_some();
                    messages.push(Outbound { to: player_id, msg: Message::CardValidation(valid) });
                    if valid {
                        let io = match found {
                            Some(io) => io,
                            None => {
                                proof {
                                    assert(false);
                                }
                                0
                            },
                        };
                        let ghost msgs1 = messages@;
                        let pass = self.play_card_effects(io, messages);
                        proof {
                            assert(messages@.take(old(messages)@.len() + 1 as int) =~= old(
                                messages,
                            )@ + seq![
                                Outbound { to: player_id, msg: Message::CardValidation(true) },
                            ]);
                            assert(messages@.skip(old(messages)@.len() + 1 as int)
                                =~= messages@.skip(msgs1.len() as int));
                        }
                        pass
                    } else {
                        false
                    }
                } else {
                    messages.push(Outbound { to: player_id, msg: Message::CardValidation(false) });
                    false
                }
            },
            GameCommand::ColorChosen(color) => {
                let st = self.clients[ci].state;
                if st == PlayerState::ChoosingColorWild || st == PlayerState::ChoosingColorWildFour
                    || st == PlayerState::ChoosingColorWildUno || st
                    == PlayerState::ChoosingColorWildFourUno {
                    proof {
                        assert(ci == self.turn_index);
                    }
                    self.current_color = color;
                    if st == PlayerState::ChoosingColorWildFour || st
                        == PlayerState::ChoosingColorWildFourUno {
                        self.pass_turn(true, messages);
                        self.penalty_draw(4, messages);
                        true
                    } else {
                        true
                    }
                } else {
                    false
                }
            },
            GameCommand::DrawCard => {
                if self.clients[ci].state == PlayerState::DrawingCard {
                    proof {
                        assert(ci == self.turn_index);
                    }
                    let ghost pre = *self;
                    let c = self.draw_card();
                    self.clients[ci].hand.push(c);
                    proof {
                        lemma_hand_total_update_facts(pre.clients@, self.clients@, ci as int);
                    }
                    messages.push(Outbound { to: player_id, msg: Message::DrawCard(c) });
                    let top = match self.discard.top() {
                        Some(c) => c,
                        None => {
                            proof {
                                assert(false);
                            }
                            Card { color: Color::Black, value: Value::Wild }
                        },
                    };
                    let ghost grown = self.clients@;
                    let pass: bool;
                    if self.clients[ci].can_play(top, self.current_color) {
                        self.clients[ci].state = PlayerState::PlayingCard;
                        pass = false;
                    } else {
                        self.clients[ci].state = PlayerState::WaitingToPlay;
                        pass = true;
                    }
                    proof {
                        lemma_hand_total_pointwise(self.clients@, grown);
                        lemma_ids_distinct_pointwise(old(self).clients@, self.clients@);
                    }
                    pass
                } else {
                    false
                }
            },
            GameCommand::Uno => {
                Self::send_stop_pair(&self.clients, messages);
                true
            },
            GameCommand::CounterUno => {
                Self::send_stop_pair(&self.clients, messages);
                self.penalty_draw(2, messages);
                true
            },
        }
    }

    /// Computes and broadcasts final scores, then announces the winner to
    /// every player.
    pub fn game_end(&mut self, winner: PlayerId, messages: &mut Vec<Outbound>)
        requires
            forall|k: int|
                0 <= k < old(self).clients@.len() ==> old(self).clients@[k].score + 50 * old(
                    self,
                ).clients@[k].hand@.len() <= u32::MAX,
        ensures
            final(self).clients@.len() == old(self).clients@.len(),
            forall|k: int|
                0 <= k < old(self).clients@.len() ==> final(self).clients@[k].id == old(
                    self,
                ).clients@[k].id && final(self).clients@[k].hand == old(self).clients@[k].hand
                    && final(self).clients@[k].state == old(self).clients@[k].state && final(self).clients@[k].score == old(self).clients@[k].score + hand_points(
                    old(self).clients@[k].hand@,
                ),
            final(self).deck == old(self).deck,
            final(self).discard == old(self).discard,
            final(self).turn_index == old(self).turn_index,
            final(self).reverse_turn == old(self).reverse_turn,
            final(self).current_color == old(self).current_color,
            final(self).total_cards() == old(self).total_cards(),
            final(messages)@ == old(messages)@ + Self::scores_broadcast(
                final(self).clients@,
                final(self).clients@,
            ) + Self::broadcast_all(final(self).clients@, Message::GameEnd(winner)),
    {
        self.compute_scores(messages);
        Self::broadcast(&self.clients, Message::GameEnd(winner), messages);
    }
}

/// Points of the cards left in a hand.
pub open spec fn hand_points(hand: Seq<Card>) -> int
    decreases hand.len(),
{
    if hand.len() == 0 {
        0
    } else {
        hand_points(hand.drop_last()) + spec_points(hand.last().value)
    }
}

/// A hand of `n` cards is worth between 0 and 50 n points.
pub proof fn lemma_hand_points_bounds(hand: Seq<Card>)
    ensures
        0 <= hand_points(hand) <= 50 * hand.len(),
    decreases hand.len(),
{
    if hand.len() > 0 {
        lemma_hand_points_bounds(hand.drop_last());
    }
}

/// The turn broadcast depends only on the recipients' identities: the hand
/// size announced is fixed by its arguments.
pub proof fn lemma_turn_broadcast_congruence_n(
    a: Seq<Player>,
    b: Seq<Player>,
    id: PlayerId,
    n: usize,
    color: Color,
)
    requires
        a.len() == b.len(),
        forall|k: int| 0 <= k < a.len() ==> a[k].id == b[k].id,
    ensures
        Game::turn_broadcast(a, id, n, color) == Game::turn_broadcast(b, id, n, color),
    decreases a.len(),
{
    if a.len() > 0 {
        lemma_turn_broadcast_congruence_n(a.drop_last(), b.drop_last(), id, n, color);
    }
}

/// The turn broadcast is the same over two player sequences with the same
/// identities, whatever hand size it announces.
pub proof fn lemma_turn_broadcast_congruence(
    a: Seq<Player>,
    b: Seq<Player>,
    id: PlayerId,
    color: Color,
)
    requires
        a.len() == b.len(),
        forall|k: int| 0 <= k < a.len() ==> a[k].id == b[k].id,
    ensures
        forall|n: usize|
            Game::turn_broadcast(a, id, n, color) == #[trigger] Game::turn_broadcast(
                b,
                id,
                n,
                color,
            ),
{
    assert forall|n: usize|
        Game::turn_broadcast(a, id, n, color) == #[trigger] Game::turn_broadcast(
            b,
            id,
            n,
            color,
        ) by {
        lemma_turn_broadcast_congruence_n(a, b, id, n, color);
    }
}

/// A broadcast to all players depends only on their identities.
pub proof fn lemma_broadcast_all_congruence(a: Seq<Player>, b: Seq<Player>, m: Message)
    requires
        a.len() == b.len(),
        forall|k: int| 0 <= k < a.len() ==> a[k].id == b[k].id,
    ensures
        Game::broadcast_all(a, m) == Game::broadcast_all(b, m),
    decreases a.len(),
{
    if a.len() > 0 {
        lemma_broadcast_all_congruence(a.drop_last(), b.drop_last(), m);
    }
}

/// The played-card broadcast depends only on identities and on which
/// players are waiting.
pub proof fn lemma_played_broadcast_congruence(
    a: Seq<Player>,
    b: Seq<Player>,
    card: Card,
    in_uno: bool,
)
    requires
        a.len() == b.len(),
        forall|k: int|
            0 <= k < a.len() ==> a[k].id == b[k].id && ((a[k].state == PlayerState::WaitingToPlay)
                <==> (b[k].state == PlayerState::WaitingToPlay)),
    ensures
        Game::played_broadcast(a, card, in_uno) == Game::played_broadcast(b, card, in_uno),
    decreases a.len(),
{
    if a.len() > 0 {
        lemma_played_broadcast_congruence(a.drop_last(), b.drop_last(), card, in_uno);
    }
}

/// Identity distinctness carries over to any sequence with the same
/// identities position by position.
pub proof fn lemma_ids_distinct_pointwise(a: Seq<Player>, b: Seq<Player>)
    requires
        a.len() == b.len(),
        ids_distinct(a),
        forall|k: int| 0 <= k < a.len() ==> b[k].id == a[k].id,
    ensures
        ids_distinct(b),
{
    assert forall|i: int, j: int|
        0 <= i < b.len() && 0 <= j < b.len() && i != j implies b[i].id != b[j].id by {
        assert(b[i].id == a[i].id);
        assert(b[j].id == a[j].id);
    }
}

/// A player sequence whose hands are all empty holds no cards.
pub proof fn lemma_hand_total_zero(players: Seq<Player>)
    requires
        forall|k: int| 0 <= k < players.len() ==> players[k].hand@.len() == 0,
    ensures
        hand_total(players) == 0,
    decreases players.len(),
{
    if players.len() > 0 {
        lemma_hand_total_zero(players.drop_last());
    }
}

/// Frame fact used after one player's hand changed: the card total moves by
/// the difference at that position.
pub proof fn lemma_hand_total_update_facts(org: Seq<Player>, fin: Seq<Player>, j: int)
    requires
        org.len() == fin.len(),
        0 <= j < org.len(),
        forall|k: int| 0 <= k < org.len() && k != j ==> fin[k] == org[k],
    ensures
        hand_total(fin) == hand_total(org) - org[j].hand@.len() + fin[j].hand@.len(),
{
    assert(fin =~= org.update(j, fin[j]));
    lemma_hand_total_update(org, j, fin[j]);
}

} // verus!

//! The round/trick state machine: per-player hands, bids, trick counts and
//! scores, advanced through round start, bidding, trick play, trick
//! resolution and round scoring.
use vstd::prelude::*;

verus! {

use crate::cards::Card;
use crate::cards::Rank;
use crate::cards::Suit;
use crate::cards::fresh_deck;
use crate::cards::gen_wizard_deck;
use crate::cards::rank_order;

/// One player's record: the hand currently held, the bid for the round (absent
/// until placed), tricks won this round, and the running score.
#[derive(Debug)]
pub struct PlayerState {
    pub hand: Vec<Card>,
    pub bid: Option<u32>,
    pub tricks_won: u32,
    pub score: i32,
}

/// The transient state of a trick in progress: the suit led by the first card
/// (absent until the first play) and the plays so far, in play order.
#[derive(Debug)]
pub struct TrickState {
    pub trick_trump: Option<Suit>,
    pub cards_played: Vec<(usize, Card)>,
}

/// The aggregate game state for a fixed set of players.
#[derive(Debug)]
pub struct GameState {
    pub deck: Vec<Card>,
    pub players: Vec<PlayerState>,
    pub trump_suit: Option<Suit>,
    pub current_round: u32,
    pub dealer_index: usize,
    pub player_index: usize,
    pub current_trick: Option<TrickState>,
}

/// Why a play was rejected.
#[derive(Copy, Clone, Debug, PartialEq, Eq, Structural)]
pub enum PlayCardError {
    PlayerDoesNotHaveCard,
    PlayerDoesNotExist,
    NoCurrentTrick,
}

/// Why trick resolution was rejected.
#[derive(Copy, Clone, Debug, PartialEq, Eq, Structural)]
pub enum EndTrickError {
    TrickNotStarted,
    TrumpSuitNotSelected,
    NotAllPlayersHavePlayed,
    NoTrickTrumpSet,
    PlayerDoesNotExist,
    NoWinnerFound,
}

/// Why round scoring was rejected.
#[derive(Copy, Clone, Debug, PartialEq, Eq, Structural)]
pub enum EndRoundError {
    PlayerDoesNotExist,
}

/// The suit a card establishes when it leads a trick: its own suit for a
/// standard card, Heart by default for the wildcard.
pub open spec fn led_suit(c: Card) -> Suit {
    match c {
        Card::Standard { suit, rank } => suit,
        Card::Joker => Suit::Heart,
    }
}

/// The sequence with the first occurrence of `c` (if any) taken out.
pub open spec fn remove_first(s: Seq<Card>, c: Card) -> Seq<Card>
    decreases s.len(),
{
    if s.len() == 0 {
        s
    } else if s[0] == c {
        s.drop_first()
    } else {
        seq![s[0]] + remove_first(s.drop_first(), c)
    }
}

/// The player of the earliest wildcard among the plays, if any was played.
pub open spec fn first_joker(cards: Seq<(usize, Card)>) -> Option<usize>
    decreases cards.len(),
{
    if cards.len() == 0 {
        None
    } else if cards[0].1 is Joker {
        Some(cards[0].0)
    } else {
        first_joker(cards.drop_first())
    }
}

/// The player and rank of the best card of `suit` among the plays: the
/// highest rank, the latest play among equals. Wildcards never qualify.
pub open spec fn best_in_suit(cards: Seq<(usize, Card)>, suit: Suit) -> Option<(usize, Rank)>
    decreases cards.len(),
{
    if cards.len() == 0 {
        None
    } else {
        let prev = best_in_suit(cards.drop_last(), suit);
        match cards.last().1 {
            Card::Standard { suit: s, rank } => {
                if s == suit && (prev is None || rank_order(rank) >= rank_order((prev->0).1)) {
                    Some((cards.last().0, rank))
                } else {
                    prev
                }
            },
            Card::Joker => prev,
        }
    }
}

/// Who wins a completed trick: the earliest wildcard outright; else the best
/// card of the round trump; else the best card of the suit that was led.
pub open spec fn trick_winner(cards: Seq<(usize, Card)>, trump_suit: Suit, trick_trump: Suit) -> Option<usize> {
    if first_joker(cards) is Some {
        first_joker(cards)
    } else if best_in_suit(cards, trump_suit) is Some {
        Some((best_in_suit(cards, trump_suit)->0).0)
    } else {
        match best_in_suit(cards, trick_trump) {
            Some(e) => Some(e.0),
            None => None,
        }
    }
}

/// The player an earliest-wildcard win names is one of the players who
/// played in the trick.
proof fn lemma_first_joker_played(cards: Seq<(usize, Card)>)
    ensures
        first_joker(cards) matches Some(w) ==> exists|k: int|
            0 <= k < cards.len() && (#[trigger] cards[k]).0 == w,
    decreases cards.len(),
{
    if cards.len() > 0 && !(cards[0].1 is Joker) {
        lemma_first_joker_played(cards.drop_first());
        if first_joker(cards) is Some {
            let w = first_joker(cards)->0;
            let k = choose|k: int|
                0 <= k < cards.drop_first().len() && (#[trigger] cards.drop_first()[k]).0 == w;
            assert(cards[k + 1].0 == w);
        }
    }
}

/// The player a best-of-suit win names is one of the players who played in
/// the trick.
proof fn lemma_best_in_suit_played(cards: Seq<(usize, Card)>, suit: Suit)
    ensures
        best_in_suit(cards, suit) matches Some(e) ==> exists|k: int|
            0 <= k < cards.len() && (#[trigger] cards[k]).0 == e.0,
    decreases cards.len(),
{
    if cards.len() > 0 {
        lemma_best_in_suit_played(cards.drop_last(), suit);
        if best_in_suit(cards, suit) is Some {
            let e = best_in_suit(cards, suit)->0;
            if best_in_suit(cards, suit) == best_in_suit(cards.drop_last(), suit) {
                let k = choose|k: int|
                    0 <= k < cards.drop_last().len() && (#[trigger] cards.drop_last()[k]).0 == e.0;
                assert(cards[k].0 == e.0);
            } else {
                assert(cards[cards.len() - 1].0 == e.0);
            }
        }
    }
}

/// Law: the resolved winner of a trick always played a card in it.
pub proof fn lemma_winner_played(cards: Seq<(usize, Card)>, trump_suit: Suit, trick_trump: Suit)
    ensures
        trick_winner(cards, trump_suit, trick_trump) matches Some(w) ==> exists|k: int|
            0 <= k < cards.len() && (#[trigger] cards[k]).0 == w,
{
    lemma_first_joker_played(cards);
    lemma_best_in_suit_played(cards, trump_suit);
    lemma_best_in_suit_played(cards, trick_trump);
}

/// When a standard card of `suit` stands at position `k`, a best card of that
/// suit exists.
proof fn lemma_best_in_suit_some(cards: Seq<(usize, Card)>, suit: Suit, k: int)
    requires
        0 <= k < cards.len(),
        cards[k].1 matches Card::Standard { suit: s, rank } && s == suit,
    ensures
        best_in_suit(cards, suit) is Some,
    decreases cards.len(),
{
    if k < cards.len() - 1 {
        lemma_best_in_suit_some(cards.drop_last(), suit, k);
    }
}

/// Law: a trick with at least one play, whose led suit is the one its first
/// card establishes, always resolves to a winner.
pub proof fn lemma_winner_exists(cards: Seq<(usize, Card)>, trump_suit: Suit, trick_trump: Suit)
    requires
        cards.len() >= 1,
        trick_trump == led_suit(cards[0].1),
    ensures
        trick_winner(cards, trump_suit, trick_trump) is Some,
{
    match cards[0].1 {
        Card::Joker => {
            assert(first_joker(cards) is Some);
        },
        Card::Standard { suit, rank } => {
            lemma_best_in_suit_some(cards, trick_trump, 0);
        },
    }
}

/// What a round adds to the score of a player who bid `bid` and won `tricks`
/// tricks: a reward of `20 + 10 * bid` for an exact match, else a penalty of
/// ten points per trick of difference.
pub open spec fn score_delta(bid: u32, tricks: u32) -> int {
    if tricks == bid {
        10 * (bid as int) + 20
    } else if tricks > bid {
        -10 * ((tricks - bid) as int)
    } else {
        -10 * ((bid - tricks) as int)
    }
}

/// How a successful round start relates the old and the new state through
/// the shuffled deck `d` it drew: with `n` players and the new round number
/// `r`, player `i` receives the `i`-th block of `r` consecutive cards and has
/// no bid; the card after the deal (if any is left) reveals the round trump,
/// a standard card by its suit, a joker or an exhausted deck as Heart; and
/// the cards after the reveal are retained as the new deck.
pub open spec fn deals(pre: GameState, post: GameState, d: Seq<Card>) -> bool {
    let n = pre.players@.len() as int;
    let r = pre.current_round + 1;
    &&& d.len() == 56
    &&& d.to_multiset() == fresh_deck().to_multiset()
    &&& post.players@.len() == n
    &&& forall|i: int|
        0 <= i < n ==> {
            &&& (#[trigger] post.players@[i]).hand@ == d.subrange(i * r, (i + 1) * r)
            &&& post.players@[i].bid is None
            &&& post.players@[i].tricks_won == pre.players@[i].tricks_won
            &&& post.players@[i].score == pre.players@[i].score
        }
    &&& post.trump_suit == Some(
        if n * r < 56 {
            led_suit(d[n * r])
        } else {
            Suit::Heart
        },
    )
    &&& post.deck@ == (if n * r + 1 <= 56 {
        d.subrange(n * r + 1, 56)
    } else {
        Seq::<Card>::empty()
    })
}

/// A player's record after round scoring: trick count reset to zero and the
/// score adjusted by what the round earned, with the hand and bid untouched.
pub open spec fn scored_player(p: PlayerState) -> PlayerState {
    PlayerState { tricks_won: 0, score: (p.score + score_delta(p.bid->0, p.tricks_won)) as i32, ..p }
}

/// Every player before position `n` has placed a bid.
pub open spec fn bids_placed_up_to(players: Seq<PlayerState>, n: int) -> bool {
    forall|j: int| 0 <= j < n ==> (#[trigger] players[j]).bid is Some
}

impl TrickState {
    /// Among the plays, the player of the highest-ranked card of `trump` (the
    /// latest such play among rank ties), if any standard card of that suit
    /// was played.
    pub fn find_player_of_highest_rank_in_trump_suit(&self, trump: Suit) -> (r: Option<usize>)
        ensures
            r == match best_in_suit(self.cards_played@, trump) {
                Some(e) => Some(e.0),
                None => None::<usize>,
            },
    {
        let ghost cards = self.cards_played@;
        let mut best: Option<(usize, Rank)> = None;
        let mut i: usize = 0;
        while i < self.cards_played.len()
            invariant
                i <= cards.len(),
                cards == self.cards_played@,
                best == best_in_suit(cards.subrange(0, i as int), trump),
            decreases cards.len() - i,
        {
            let (p, c) = self.cards_played[i];
            match c {
                Card::Standard { suit, rank } => {
                    if suit == trump {
                        let replace = match best {
                            None => true,
                            Some((bp, br)) => rank.order() >= br.order(),
                        };
                        if replace {
                            best = Some((p, rank));
                        }
                    }
                },
                Card::Joker => {},
            }
            proof {
                assert(cards.subrange(0, (i + 1) as int).drop_last() =~= cards.subrange(
                    0,
                    i as int,
                ));
                assert(cards.subrange(0, (i + 1) as int).last() == cards[i as int]);
            }
            i += 1;
        }
        proof {
            assert(cards.subrange(0, cards.len() as int) =~= cards);
        }
        match best {
            Some((p, r)) => Some(p),
            None => None,
        }
    }
}

/// The player of the earliest wildcard among the plays, if one was played.
fn find_first_joker(cards: &Vec<(usize, Card)>) -> (r: Option<usize>)
    ensures
        r == first_joker(cards@),
{
    let ghost full = cards@;
    proof {
        assert(full.subrange(0, full.len() as int) =~= full);
    }
    let mut i: usize = 0;
    while i < cards.len()
        invariant
            i <= full.len(),
            full == cards@,
            first_joker(full) == first_joker(full.subrange(i as int, full.len() as int)),
        decreases full.len() - i,
    {
        let (p, c) = cards[i];
        proof {
            assert(full.subrange(i as int, full.len() as int)[0] == full[i as int]);
        }
        match c {
            Card::Joker => {
                return Some(p);
            },
            Card::Standard { suit, rank } => {},
        }
        proof {
            assert(full.subrange(i as int, full.len() as int).drop_first() =~= full.subrange(
                (i + 1) as int,
                full.len() as int,
            ));
        }
        i += 1;
    }
    None
}

/// The position of the first occurrence of `card` in `hand`, if it is held.
fn find_card(hand: &Vec<Card>, card: Card) -> (r: Option<usize>)
    ensures
        match r {
            Some(k) => {
                &&& k < hand@.len()
                &&& hand@[k as int] == card
                &&& forall|j: int| 0 <= j < k ==> hand@[j] != card
            },
            None => !hand@.contains(card),
        },
{
    let mut i: usize = 0;
    while i < hand.len()
        invariant
            i <= hand@.len(),
            forall|j: int| 0 <= j < i ==> hand@[j] != card,
        decreases hand@.len() - i,
    {
        if hand[i] == card {
            return Some(i);
        }
        i += 1;
    }
    None
}

/// Removing the first occurrence of `c`, found at position `k`, is removal at
/// position `k`.
proof fn lemma_remove_first_at(s: Seq<Card>, c: Card, k: int)
    requires
        0 <= k < s.len(),
        s[k] == c,
        forall|j: int| 0 <= j < k ==> s[j] != c,
    ensures
        remove_first(s, c) == s.remove(k),
    decreases k,
{
    if k == 0 {
        assert(s.drop_first() =~= s.remove(0));
    } else {
        lemma_remove_first_at(s.drop_first(), c, k - 1);
        assert(seq![s[0]] + s.drop_first().remove(k - 1) =~= s.remove(k));
    }
}

impl GameState {
    /// The structural invariant every reachable game state keeps: at least one
    /// player, the dealer cursor in range, and the actor cursor at most one
    /// past the last player (it starts there in a one-player game).
    pub open spec fn wf(self) -> bool {
        &&& self.players@.len() >= 1
        &&& self.dealer_index < self.players@.len()
        &&& self.player_index <= self.players@.len()
    }

    /// Create a game for `num_players` players: empty hands, no bids, zero
    /// scores, round counter at zero, dealer at 0 and first actor at 1.
    pub fn new(num_players: usize) -> (game: GameState)
        requires
            num_players >= 1,
        ensures
            game.wf(),
            game.players@.len() == num_players,
            forall|i: int|
                0 <= i < num_players ==> {
                    &&& (#[trigger] game.players@[i]).hand@.len() == 0
                    &&& game.players@[i].bid is None
                    &&& game.players@[i].tricks_won == 0
                    &&& game.players@[i].score == 0
                },
            game.deck@.len() == 0,
            game.trump_suit is None,
            game.current_round == 0,
            game.dealer_index == 0,
            game.player_index == 1,
            game.current_trick is None,
    {
        let mut players: Vec<PlayerState> = Vec::new();
        let mut i: usize = 0;
        while i < num_players
            invariant
                i <= num_players,
                players@.len() == i,
                forall|k: int|
                    0 <= k < i ==> {
                        &&& (#[trigger] players@[k]).hand@.len() == 0
                        &&& players@[k].bid is None
                        &&& players@[k].tricks_won == 0
                        &&& players@[k].score == 0
                    },
            decreases num_players - i,
        {
            players.push(PlayerState { hand: Vec::new(), bid: None, tricks_won: 0, score: 0 });
            i += 1;
        }
        GameState {
            deck: Vec::new(),
            players,
            trump_suit: None,
            current_round: 0,
            dealer_index: 0,
            player_index: 1,
            current_trick: None,
        }
    }

    /// Begin the next round: advance the round counter, rotate the dealer and
    /// the first actor, draw a fresh shuffled deck, and deal `current_round`
    /// cards to each player, clearing all bids; the next undealt card reveals
    /// the round trump. When the deck is too small for the deal the round is
    /// aborted and `false` comes back, with the counter and the cursors
    /// already advanced but hands, bids, trump and deck untouched.
    pub fn start_round(&mut self, rng: &mut rand::rngs::StdRng) -> (ok: bool)
        requires
            old(self).wf(),
            old(self).current_round < u32::MAX,
        ensures
            final(self).wf(),
            final(self).players@.len() == old(self).players@.len(),
            final(self).current_round == old(self).current_round + 1,
            final(self).dealer_index == (old(self).dealer_index + 1) % (
            old(self).players@.len() as int),
            final(self).player_index == (final(self).dealer_index + 1) % (
            old(self).players@.len() as int),
            final(self).current_trick == old(self).current_trick,
            ok <==> old(self).players@.len() * (old(self).current_round + 1) <= 56,
            ok ==> exists|d: Seq<Card>| #[trigger] deals(*old(self), *final(self), d),
            !ok ==> final(self).players@ == old(self).players@ && final(self).deck == old(
                self,
            ).deck && final(self).trump_suit == old(self).trump_suit,
    {
        let n = self.players.len();
        self.current_round = self.current_round + 1;
        self.dealer_index = (self.dealer_index + 1) % n;
        self.player_index = (self.dealer_index + 1) % n;
        let deck = gen_wizard_deck(rng);
        let r32: u32 = self.current_round;
        proof {
            assert((n as int) * (r32 as int) <= 0xffff_ffff_ffff_ffff * 0xffff_ffff)
                by (nonlinear_arith)
                requires
                    0 <= n as int <= 0xffff_ffff_ffff_ffff,
                    0 <= r32 as int <= 0xffff_ffff,
            ;
        }
        let wide: u128 = (n as u128) * (r32 as u128);
        if wide > (deck.len() as u128) {
            return false;
        }
        let r: usize = r32 as usize;
        let need: usize = n * r;
        let ghost d = deck@;
        let mut i: usize = 0;
        while i < n
            invariant
                i <= n,
                n == self.players@.len(),
                n == old(self).players@.len(),
                1 <= n,
                r == old(self).current_round + 1,
                n * r <= 56,
                deck@ == d,
                d.len() == 56,
                forall|k: int|
                    0 <= k < i ==> {
                        &&& (#[trigger] self.players@[k]).hand@ == d.subrange(
                            k * (r as int),
                            (k + 1) * (r as int),
                        )
                        &&& self.players@[k].bid is None
                        &&& self.players@[k].tricks_won == old(self).players@[k].tricks_won
                        &&& self.players@[k].score == old(self).players@[k].score
                    },
                forall|k: int| i <= k < n ==> self.players@[k] == old(self).players@[k],
                self.current_round == old(self).current_round + 1,
                self.dealer_index == (old(self).dealer_index + 1) % (n as int),
                self.player_index == (self.dealer_index + 1) % (n as int),
                self.trump_suit == old(self).trump_suit,
                self.current_trick == old(self).current_trick,
                self.deck == old(self).deck,
            decreases n - i,
        {
            proof {
                assert((i as int) * (r as int) + (r as int) == (i + 1) * (r as int) && (i + 1) * (
                r as int) <= (n as int) * (r as int)) by (nonlinear_arith)
                    requires
                        i + 1 <= n,
                        0 <= r,
                ;
            }
            let base: usize = i * r;
            let mut hand: Vec<Card> = Vec::new();
            let mut j: usize = 0;
            while j < r
                invariant
                    j <= r,
                    base + r <= 56,
                    deck@ == d,
                    d.len() == 56,
                    hand@ == d.subrange(base as int, base as int + j as int),
                decreases r - j,
            {
                hand.push(deck[base + j]);
                proof {
                    assert(d.subrange(base as int, base as int + (j + 1) as int) =~= d.subrange(
                        base as int,
                        base as int + j as int,
                    ).push(d[base as int + j as int]));
                }
                j += 1;
            }
            self.players[i].hand = hand;
            self.players[i].bid = None;
            i += 1;
        }
        let trump_of_reveal: Suit = if need < deck.len() {
            match deck[need] {
                Card::Standard { suit, rank } => suit,
                Card::Joker => Suit::Heart,
            }
        } else {
            Suit::Heart
        };
        self.trump_suit = Some(trump_of_reveal);
        let mut rest: Vec<Card> = Vec::new();
        if need < deck.len() {
            let mut k: usize = need + 1;
            while k < deck.len()
                invariant
                    need + 1 <= k <= 56,
                    deck@ == d,
                    d.len() == 56,
                    rest@ == d.subrange(need + 1, k as int),
                decreases 56 - k,
            {
                proof {
                    assert(d.subrange(need + 1, (k + 1) as int) =~= d.subrange(
                        need + 1,
                        k as int,
                    ).push(d[k as int]));
                }
                rest.push(deck[k]);
                k += 1;
            }
        }
        self.deck = rest;
        proof {
            if (need as int) + 1 <= 56 {
                assert(rest@ =~= d.subrange(need + 1, 56));
            }
            assert(deals(*old(self), *self, d));
        }
        true
    }

    /// Record `bid` for the acting player and pass the turn on. With the
    /// cursor out of range (one-player game before any round) nothing happens.
    /// No bid-range check is made here; the driver decides what to offer.
    pub fn place_bid(&mut self, bid: u32)
        ensures
            final(self).deck == old(self).deck,
            final(self).trump_suit == old(self).trump_suit,
            final(self).current_round == old(self).current_round,
            final(self).dealer_index == old(self).dealer_index,
            final(self).current_trick == old(self).current_trick,
            ({
                let pi = old(self).player_index as int;
                let len = old(self).players@.len() as int;
                if pi < len {
                    &&& final(self).players@ == old(self).players@.update(
                        pi,
                        (PlayerState { bid: Some(bid), ..old(self).players@[pi] }),
                    )
                    &&& final(self).player_index == (pi + 1) % len
                } else {
                    &&& final(self).players@ == old(self).players@
                    &&& final(self).player_index == old(self).player_index
                }
            }),
            old(self).wf() ==> final(self).wf(),
    {
        if self.player_index < self.players.len() {
            let pi = self.player_index;
            self.players[pi].bid = Some(bid);
            self.player_index = (pi + 1) % self.players.len();
            proof {
                assert(self.players@ =~= old(self).players@.update(
                    pi as int,
                    (PlayerState { bid: Some(bid), ..old(self).players@[pi as int] }),
                ));
            }
        }
    }

    /// Play `card` for the acting player: take it from the player's hand,
    /// append it to the trick, let it set the led suit if it is the first
    /// play, and pass the turn on. Rejected if the actor cursor is out of
    /// range, the player does not hold the card, or no trick is active.
    pub fn play_card(&mut self, card: Card) -> (r: Result<(), PlayCardError>)
        ensures
            final(self).deck == old(self).deck,
            final(self).trump_suit == old(self).trump_suit,
            final(self).current_round == old(self).current_round,
            final(self).dealer_index == old(self).dealer_index,
            ({
                let pre = *old(self);
                let len = pre.players@.len() as int;
                let pi = pre.player_index as int;
                if pi >= len {
                    &&& r == Err::<(), PlayCardError>(PlayCardError::PlayerDoesNotExist)
                    &&& *final(self) == pre
                } else if !pre.players@[pi].hand@.contains(card) {
                    &&& r == Err::<(), PlayCardError>(PlayCardError::PlayerDoesNotHaveCard)
                    &&& *final(self) == pre
                } else if pre.current_trick is None {
                    &&& r == Err::<(), PlayCardError>(PlayCardError::NoCurrentTrick)
                    &&& *final(self) == pre
                } else {
                    &&& r == Ok::<(), PlayCardError>(())
                    &&& final(self).players@ == pre.players@.update(
                        pi,
                        (PlayerState {
                            hand: final(self).players@[pi].hand,
                            ..pre.players@[pi]
                        }),
                    )
                    &&& final(self).players@[pi].hand@ == remove_first(
                        pre.players@[pi].hand@,
                        card,
                    )
                    &&& final(self).current_trick matches Some(t) && {
                        let pre_t = pre.current_trick->0;
                        &&& t.cards_played@ == pre_t.cards_played@.push(
                            (pre.player_index, card),
                        )
                        &&& t.trick_trump == (if pre_t.trick_trump is Some {
                            pre_t.trick_trump
                        } else {
                            Some(led_suit(card))
                        })
                    }
                    &&& final(self).player_index == (pi + 1) % len
                }
            }),
            old(self).wf() ==> final(self).wf(),
    {
        if self.player_index >= self.players.len() {
            return Err(PlayCardError::PlayerDoesNotExist);
        }
        let pi = self.player_index;
        let card_index = match find_card(&self.players[pi].hand, card) {
            Some(k) => k,
            None => {
                return Err(PlayCardError::PlayerDoesNotHaveCard);
            },
        };
        let mut trick = match self.current_trick.take() {
            Some(t) => t,
            None => {
                return Err(PlayCardError::NoCurrentTrick);
            },
        };
        proof {
            lemma_remove_first_at(self.players@[pi as int].hand@, card, card_index as int);
        }
        self.players[pi].hand.remove(card_index);
        trick.cards_played.push((pi, card));
        if trick.trick_trump.is_none() {
            trick.trick_trump = Some(
                match card {
                    Card::Standard { suit, rank } => suit,
                    Card::Joker => Suit::Heart,
                },
            );
        }
        self.current_trick = Some(trick);
        self.player_index = (pi + 1) % self.players.len();
        proof {
            assert(self.players@ =~= old(self).players@.update(
                pi as int,
                (PlayerState {
                    hand: self.players@[pi as int].hand,
                    ..old(self).players@[pi as int]
                }),
            ));
        }
        Ok(())
    }

    /// Resolve the completed trick: the winner's trick count goes up by one,
    /// the winner leads the next trick, and the trick state is cleared. The
    /// trick state is consumed even when resolution is rejected.
    pub fn end_trick(&mut self) -> (r: Result<(), EndTrickError>)
        requires
            ({
                let pre = *old(self);
                pre.current_trick matches Some(t) ==> (t.trick_trump is Some
                    && t.cards_played@.len() == pre.players@.len() && pre.trump_suit is Some ==> (
                trick_winner(t.cards_played@, pre.trump_suit->0, t.trick_trump->0) matches Some(w)
                    ==> (w < pre.players@.len() ==> pre.players@[w as int].tricks_won
                    < u32::MAX)))
            }),
        ensures
            final(self).deck == old(self).deck,
            final(self).trump_suit == old(self).trump_suit,
            final(self).current_round == old(self).current_round,
            final(self).dealer_index == old(self).dealer_index,
            final(self).current_trick is None,
            ({
                let pre = *old(self);
                let len = pre.players@.len() as int;
                if pre.current_trick is None {
                    &&& r == Err::<(), EndTrickError>(EndTrickError::TrickNotStarted)
                    &&& final(self).players@ == pre.players@
                    &&& final(self).player_index == pre.player_index
                } else {
                    let t = pre.current_trick->0;
                    if t.trick_trump is None {
                        &&& r == Err::<(), EndTrickError>(EndTrickError::NoTrickTrumpSet)
                        &&& final(self).players@ == pre.players@
                        &&& final(self).player_index == pre.player_index
                    } else if t.cards_played@.len() != len {
                        &&& r == Err::<(), EndTrickError>(EndTrickError::NotAllPlayersHavePlayed)
                        &&& final(self).players@ == pre.players@
                        &&& final(self).player_index == pre.player_index
                    } else if pre.trump_suit is None {
                        &&& r == Err::<(), EndTrickError>(EndTrickError::TrumpSuitNotSelected)
                        &&& final(self).players@ == pre.players@
                        &&& final(self).player_index == pre.player_index
                    } else {
                        let w = trick_winner(t.cards_played@, pre.trump_suit->0, t.trick_trump->0);
                        if w is None {
                            &&& r == Err::<(), EndTrickError>(EndTrickError::NoWinnerFound)
                            &&& final(self).players@ == pre.players@
                            &&& final(self).player_index == pre.player_index
                        } else if w->0 >= len {
                            &&& r == Err::<(), EndTrickError>(EndTrickError::PlayerDoesNotExist)
                            &&& final(self).players@ == pre.players@
                            &&& final(self).player_index == pre.player_index
                        } else {
                            &&& r == Ok::<(), EndTrickError>(())
                            &&& final(self).players@ == pre.players@.update(
                                w->0 as int,
                                (PlayerState {
                                    tricks_won: (pre.players@[w->0 as int].tricks_won + 1) as u32,
                                    ..pre.players@[w->0 as int]
                                }),
                            )
                            &&& final(self).player_index == w->0
                        }
                    }
                }
            }),
            old(self).wf() ==> final(self).wf(),
    {
        let trick = match self.current_trick.take() {
            Some(t) => t,
            None => {
                return Err(EndTrickError::TrickNotStarted);
            },
        };
        let trick_trump = match trick.trick_trump {
            Some(s) => s,
            None => {
                return Err(EndTrickError::NoTrickTrumpSet);
            },
        };
        if trick.cards_played.len() != self.players.len() {
            return Err(EndTrickError::NotAllPlayersHavePlayed);
        }
        let trump_suit = match self.trump_suit {
            Some(s) => s,
            None => {
                return Err(EndTrickError::TrumpSuitNotSelected);
            },
        };
        let winner = match find_first_joker(&trick.cards_played) {
            Some(w) => Some(w),
            None => match trick.find_player_of_highest_rank_in_trump_suit(trump_suit) {
                Some(w) => Some(w),
                None => trick.find_player_of_highest_rank_in_trump_suit(trick_trump),
            },
        };
        match winner {
            Some(w) => {
                if w >= self.players.len() {
                    return Err(EndTrickError::PlayerDoesNotExist);
                }
                self.players[w].tricks_won = self.players[w].tricks_won + 1;
                self.player_index = w;
                proof {
                    assert(self.players@ =~= old(self).players@.update(
                        w as int,
                        (PlayerState {
                            tricks_won: (old(self).players@[w as int].tricks_won + 1) as u32,
                            ..old(self).players@[w as int]
                        }),
                    ));
                }
                Ok(())
            },
            None => Err(EndTrickError::NoWinnerFound),
        }
    }

    /// Score the round: each player with an exact bid gains `20 + 10 * bid`,
    /// every other player loses ten points per trick of difference; trick
    /// counts reset and the round trump is cleared. A player without a bid
    /// stops the scan where it stands, so players before that point are
    /// already scored when the error comes back.
    pub fn end_round(&mut self) -> (r: Result<(), EndRoundError>)
        requires
            forall|i: int|
                0 <= i < old(self).players@.len() && bids_placed_up_to(old(self).players@, i + 1)
                    ==> i32::MIN <= (#[trigger] old(self).players@[i]).score + score_delta(
                    old(self).players@[i].bid->0,
                    old(self).players@[i].tricks_won,
                ) <= i32::MAX,
        ensures
            final(self).deck == old(self).deck,
            final(self).current_round == old(self).current_round,
            final(self).dealer_index == old(self).dealer_index,
            final(self).player_index == old(self).player_index,
            final(self).current_trick == old(self).current_trick,
            final(self).players@.len() == old(self).players@.len(),
            forall|i: int|
                0 <= i < old(self).players@.len() ==> (#[trigger] final(self).players@[i]) == (
                if bids_placed_up_to(old(self).players@, i + 1) {
                    scored_player(old(self).players@[i])
                } else {
                    old(self).players@[i]
                }),
            ({
                if bids_placed_up_to(old(self).players@, old(self).players@.len() as int) {
                    r == Ok::<(), EndRoundError>(()) && final(self).trump_suit is None
                } else {
                    r == Err::<(), EndRoundError>(EndRoundError::PlayerDoesNotExist)
                        && final(self).trump_suit == old(self).trump_suit
                }
            }),
            old(self).wf() ==> final(self).wf(),
    {
        let n = self.players.len();
        let mut i: usize = 0;
        while i < n
            invariant
                i <= n,
                n == self.players@.len(),
                n == old(self).players@.len(),
                bids_placed_up_to(old(self).players@, i as int),
                forall|j: int|
                    0 <= j < i ==> (#[trigger] self.players@[j]) == scored_player(
                        old(self).players@[j],
                    ),
                forall|j: int| i <= j < n ==> (#[trigger] self.players@[j]) == old(self).players@[j],
                self.deck == old(self).deck,
                self.trump_suit == old(self).trump_suit,
                self.current_round == old(self).current_round,
                self.dealer_index == old(self).dealer_index,
                self.player_index == old(self).player_index,
                self.current_trick == old(self).current_trick,
                forall|k: int|
                    0 <= k < old(self).players@.len() && bids_placed_up_to(
                        old(self).players@,
                        k + 1,
                    ) ==> i32::MIN <= (#[trigger] old(self).players@[k]).score + score_delta(
                        old(self).players@[k].bid->0,
                        old(self).players@[k].tricks_won,
                    ) <= i32::MAX,
            decreases n - i,
        {
            let bid = match self.players[i].bid {
                Some(b) => b,
                None => {
                    return Err(EndRoundError::PlayerDoesNotExist);
                },
            };
            let tricks = self.players[i].tricks_won;
            let old_score = self.players[i].score;
            let delta: i64 = if tricks == bid {
                (bid as i64) * 10 + 20
            } else if tricks > bid {
                -10 * ((tricks - bid) as i64)
            } else {
                -10 * ((bid - tricks) as i64)
            };
            let new_score: i64 = (old_score as i64) + delta;
            proof {
                assert(bids_placed_up_to(old(self).players@, i + 1));
                assert(new_score as int == old(self).players@[i as int].score + score_delta(
                    bid,
                    tricks,
                ));
            }
            self.players[i].score = new_score as i32;
            self.players[i].tricks_won = 0;
            proof {
                assert(self.players@[i as int] == scored_player(old(self).players@[i as int]));
            }
            i += 1;
        }
        self.trump_suit = None;
        Ok(())
    }

    /// Begin a fresh trick, discarding any trick that was in progress.
    pub fn start_trick(&mut self)
        ensures
            final(self).deck == old(self).deck,
            final(self).players@ == old(self).players@,
            final(self).trump_suit == old(self).trump_suit,
            final(self).current_round == old(self).current_round,
            final(self).dealer_index == old(self).dealer_index,
            final(self).player_index == old(self).player_index,
            final(self).current_trick matches Some(t) && t.trick_trump is None
                && t.cards_played@.len() == 0,
            old(self).wf() ==> final(self).wf(),
    {
        self.current_trick = Some(TrickState { trick_trump: None, cards_played: Vec::new() });
    }

    /// A summary of the round in progress: its trump and, per player, the bid
    /// and tricks won. Absent before a round's trump has been revealed.
    pub fn round_info(&self) -> (r: Option<RoundInfo>)
        ensures
            match r {
                None => self.trump_suit is None,
                Some(info) => {
                    &&& self.trump_suit == Some(info.trump)
                    &&& info.players@.len() == self.players@.len()
                    &&& forall|i: int|
                        0 <= i < self.players@.len() ==> {
                            &&& (#[trigger] info.players@[i]).bid == self.players@[i].bid
                            &&& info.players@[i].tricks_won == self.players@[i].tricks_won
                        }
                },
            },
    {
        let trump = match self.trump_suit {
            Some(s) => s,
            None => {
                return None;
            },
        };
        let mut players: Vec<PlayerRoundInfo> = Vec::new();
        let mut i: usize = 0;
        while i < self.players.len()
            invariant
                i <= self.players@.len(),
                players@.len() == i,
                forall|k: int|
                    0 <= k < i ==> {
                        &&& (#[trigger] players@[k]).bid == self.players@[k].bid
                        &&& players@[k].tricks_won == self.players@[k].tricks_won
                    },
            decreases self.players@.len() - i,
        {
            players.push(
                PlayerRoundInfo {
                    bid: self.players[i].bid,
                    tricks_won: self.players[i].tricks_won,
                },
            );
            i += 1;
        }
        Some(RoundInfo { trump, players })
    }

    /// A summary of the trick in progress: the suit it was led in, if one is
    /// set. Absent while no trick is active.
    pub fn trick_info(&self) -> (r: Option<TrickInfo>)
        ensures
            match r {
                None => self.current_trick is None,
                Some(info) => self.current_trick matches Some(t) && info.trump == t.trick_trump,
            },
    {
        match &self.current_trick {
            Some(t) => Some(TrickInfo { trump: t.trick_trump }),
            None => None,
        }
    }

    /// A snapshot of the acting player: hand, score, bid and tricks won.
    /// Absent when the actor cursor is out of range.
    pub fn current_player_info(&self) -> (r: Option<PlayerInfo>)
        ensures
            match r {
                None => self.player_index >= self.players@.len(),
                Some(info) => {
                    &&& self.player_index < self.players@.len()
                    &&& info.hand@ == self.players@[self.player_index as int].hand@
                    &&& info.score == self.players@[self.player_index as int].score
                    &&& info.bid == self.players@[self.player_index as int].bid
                    &&& info.tricks_won == self.players@[self.player_index as int].tricks_won
                },
            },
    {
        if self.player_index >= self.players.len() {
            return None;
        }
        let p = &self.players[self.player_index];
        let mut hand: Vec<Card> = Vec::new();
        let mut i: usize = 0;
        while i < p.hand.len()
            invariant
                i <= p.hand@.len(),
                hand@ == p.hand@.subrange(0, i as int),
            decreases p.hand@.len() - i,
        {
            proof {
                assert(p.hand@.subrange(0, (i + 1) as int) =~= p.hand@.subrange(0, i as int).push(
                    p.hand@[i as int],
                ));
            }
            hand.push(p.hand[i]);
            i += 1;
        }
        proof {
            assert(hand@ =~= p.hand@);
        }
        Some(PlayerInfo { hand, score: p.score, bid: p.bid, tricks_won: p.tricks_won })
    }
}

/// Law: a successful deal gives each of the `n` players exactly `r` cards,
/// where `r` is the new round number, and consumes `n * r + 1` cards from
/// the 56-card deck (the hands plus the trump reveal card); the rest is
/// retained as the new deck. When the deal takes the whole deck there is no
/// reveal card and nothing is retained.
pub proof fn lemma_deal_consumption(pre: GameState, post: GameState, d: Seq<Card>)
    requires
        deals(pre, post, d),
        pre.players@.len() * (pre.current_round + 1) <= 56,
    ensures
        forall|i: int|
            0 <= i < post.players@.len() ==> (#[trigger] post.players@[i]).hand@.len()
                == pre.current_round + 1,
        post.deck@.len() + pre.players@.len() * (pre.current_round + 1) + (
        if pre.players@.len() * (pre.current_round + 1) < 56 {
            1int
        } else {
            0int
        }) == 56,
{
    let n = pre.players@.len() as int;
    let r = pre.current_round + 1;
    assert forall|i: int| 0 <= i < post.players@.len() implies (#[trigger] post.players@[i]).hand@.len()
        == r by {
        assert(0 <= i * r && i * r <= (i + 1) * r && (i + 1) * r <= n * r && (i + 1) * r - i * r
            == r) by (nonlinear_arith)
            requires
                0 <= i,
                i + 1 <= n,
                0 < r,
        ;
        assert(post.players@[i].hand@ == d.subrange(i * r, (i + 1) * r));
    }
}

/// One player's bid and tricks won, as reported in a round summary.
#[derive(Debug)]
pub struct PlayerRoundInfo {
    pub bid: Option<u32>,
    pub tricks_won: u32,
}

/// A summary of the round in progress.
#[derive(Debug)]
pub struct RoundInfo {
    pub trump: Suit,
    pub players: Vec<PlayerRoundInfo>,
}

/// A summary of the trick in progress.
#[derive(Debug)]
pub struct TrickInfo {
    pub trump: Option<Suit>,
}

/// A snapshot of the acting player.
#[derive(Debug)]
pub struct PlayerInfo {
    pub hand: Vec<Card>,
    pub score: i32,
    pub bid: Option<u32>,
    pub tricks_won: u32,
}

} // verus!

//! Card model: suits, ranks, the two card kinds, the canonical text encoding
//! of a card, and generation of the shuffled 56-card deck.
use vstd::prelude::*;

use rand::seq::SliceRandom;

verus! {

use vstd::seq_lib::group_to_multiset_ensures;
use vstd::seq_lib::lemma_multiset_commutative;
use vstd::multiset::group_multiset_properties;
use vstd::string::StrSliceExecFns;
use vstd::string::StringExecFns;

/// One of the four French suits. No ordering among suits.
#[derive(Copy, Clone, Debug, PartialEq, Eq, Structural)]
pub enum Suit {
    Spade,
    Heart,
    Diamond,
    Club,
}

/// The thirteen standard ranks, Two lowest, Ace highest.
#[derive(Copy, Clone, Debug, PartialEq, Eq, Structural)]
pub enum Rank {
    Two,
    Three,
    Four,
    Five,
    Six,
    Seven,
    Eight,
    Nine,
    Ten,
    Jack,
    Queen,
    King,
    Ace,
}

/// A playing card: either a standard suited card or the wildcard joker.
#[derive(Copy, Clone, Debug, PartialEq, Eq, Structural)]
pub enum Card {
    Standard { suit: Suit, rank: Rank },
    Joker,
}

/// The position of a rank in the natural order: Two is 0, Ace is 12.
pub open spec fn rank_order(r: Rank) -> int {
    match r {
        Rank::Two => 0,
        Rank::Three => 1,
        Rank::Four => 2,
        Rank::Five => 3,
        Rank::Six => 4,
        Rank::Seven => 5,
        Rank::Eight => 6,
        Rank::Nine => 7,
        Rank::Ten => 8,
        Rank::Jack => 9,
        Rank::Queen => 10,
        Rank::King => 11,
        Rank::Ace => 12,
    }
}

/// The rank whose position in the natural order is `i`.
pub open spec fn nth_rank(i: int) -> Rank {
    if i == 0 {
        Rank::Two
    } else if i == 1 {
        Rank::Three
    } else if i == 2 {
        Rank::Four
    } else if i == 3 {
        Rank::Five
    } else if i == 4 {
        Rank::Six
    } else if i == 5 {
        Rank::Seven
    } else if i == 6 {
        Rank::Eight
    } else if i == 7 {
        Rank::Nine
    } else if i == 8 {
        Rank::Ten
    } else if i == 9 {
        Rank::Jack
    } else if i == 10 {
        Rank::Queen
    } else if i == 11 {
        Rank::King
    } else {
        Rank::Ace
    }
}

impl Rank {
    /// The position of this rank in the natural order, as a machine integer.
    pub fn order(&self) -> (v: u8)
        ensures
            v as int == rank_order(*self),
    {
        match self {
            Rank::Two => 0,
            Rank::Three => 1,
            Rank::Four => 2,
            Rank::Five => 3,
            Rank::Six => 4,
            Rank::Seven => 5,
            Rank::Eight => 6,
            Rank::Nine => 7,
            Rank::Ten => 8,
            Rank::Jack => 9,
            Rank::Queen => 10,
            Rank::King => 11,
            Rank::Ace => 12,
        }
    }
}

// ---------------------------------------------------------------------------
// Text encoding
// ---------------------------------------------------------------------------
/// The one-letter encoding of a suit.
pub open spec fn suit_text(s: Suit) -> Seq<char> {
    match s {
        Suit::Spade => seq!['S'],
        Suit::Heart => seq!['H'],
        Suit::Diamond => seq!['D'],
        Suit::Club => seq!['C'],
    }
}

/// The token encoding a rank: "2".."9", "10", "J", "Q", "K", "A".
pub open spec fn rank_text(r: Rank) -> Seq<char> {
    match r {
        Rank::Two => seq!['2'],
        Rank::Three => seq!['3'],
        Rank::Four => seq!['4'],
        Rank::Five => seq!['5'],
        Rank::Six => seq!['6'],
        Rank::Seven => seq!['7'],
        Rank::Eight => seq!['8'],
        Rank::Nine => seq!['9'],
        Rank::Ten => seq!['1', '0'],
        Rank::Jack => seq!['J'],
        Rank::Queen => seq!['Q'],
        Rank::King => seq!['K'],
        Rank::Ace => seq!['A'],
    }
}

/// The token encoding the wildcard.
pub open spec fn joker_text() -> Seq<char> {
    seq!['j', 'o', 'k', 'e', 'r']
}

/// The canonical text of a card: suit letter followed by rank token for a
/// standard card, the literal "joker" for the wildcard.
pub open spec fn card_text(c: Card) -> Seq<char> {
    match c {
        Card::Standard { suit, rank } => suit_text(suit) + rank_text(rank),
        Card::Joker => joker_text(),
    }
}

/// The suit encoded by a single letter, if any.
pub open spec fn parse_suit(c: char) -> Option<Suit> {
    if c == 'S' {
        Some(Suit::Spade)
    } else if c == 'H' {
        Some(Suit::Heart)
    } else if c == 'D' {
        Some(Suit::Diamond)
    } else if c == 'C' {
        Some(Suit::Club)
    } else {
        None
    }
}

/// The rank encoded by a single character, if any ("10" is handled apart).
pub open spec fn parse_rank_char(c: char) -> Option<Rank> {
    if c == '2' {
        Some(Rank::Two)
    } else if c == '3' {
        Some(Rank::Three)
    } else if c == '4' {
        Some(Rank::Four)
    } else if c == '5' {
        Some(Rank::Five)
    } else if c == '6' {
        Some(Rank::Six)
    } else if c == '7' {
        Some(Rank::Seven)
    } else if c == '8' {
        Some(Rank::Eight)
    } else if c == '9' {
        Some(Rank::Nine)
    } else if c == 'J' {
        Some(Rank::Jack)
    } else if c == 'Q' {
        Some(Rank::Queen)
    } else if c == 'K' {
        Some(Rank::King)
    } else if c == 'A' {
        Some(Rank::Ace)
    } else {
        None
    }
}

/// The rank encoded by a token, if any.
pub open spec fn parse_rank(s: Seq<char>) -> Option<Rank> {
    if s.len() == 1 {
        parse_rank_char(s[0])
    } else if s.len() == 2 && s[0] == '1' && s[1] == '0' {
        Some(Rank::Ten)
    } else {
        None
    }
}

/// The card encoded by a text, if it is well formed: the literal "joker", or
/// a suit letter followed by a rank token.
pub open spec fn card_of_text(s: Seq<char>) -> Option<Card> {
    if s =~= joker_text() {
        Some(Card::Joker)
    } else if s.len() >= 1 && parse_suit(s[0]) is Some && parse_rank(
        s.subrange(1, s.len() as int),
    ) is Some {
        Some(
            Card::Standard {
                suit: parse_suit(s[0])->0,
                rank: parse_rank(s.subrange(1, s.len() as int))->0,
            },
        )
    } else {
        None
    }
}

/// The error returned for a malformed card text; it carries the offending
/// text unchanged.
#[derive(Debug, PartialEq, Eq)]
pub struct ParseError {
    pub text: String,
}

impl Card {
    /// Render this card as its canonical text.
    pub fn format(&self) -> (out: String)
        ensures
            out@ == card_text(*self),
    {
        match self {
            Card::Standard { suit, rank } => {
                let suit_s: &str = match suit {
                    Suit::Spade => "S",
                    Suit::Heart => "H",
                    Suit::Diamond => "D",
                    Suit::Club => "C",
                };
                let rank_s: &str = match rank {
                    Rank::Two => "2",
                    Rank::Three => "3",
                    Rank::Four => "4",
                    Rank::Five => "5",
                    Rank::Six => "6",
                    Rank::Seven => "7",
                    Rank::Eight => "8",
                    Rank::Nine => "9",
                    Rank::Ten => "10",
                    Rank::Jack => "J",
                    Rank::Queen => "Q",
                    Rank::King => "K",
                    Rank::Ace => "A",
                };
                let mut out = suit_s.to_owned();
                out.append(rank_s);
                proof {
                    reveal_strlit("S");
                    reveal_strlit("H");
                    reveal_strlit("D");
                    reveal_strlit("C");
                    reveal_strlit("2");
                    reveal_strlit("3");
                    reveal_strlit("4");
                    reveal_strlit("5");
                    reveal_strlit("6");
                    reveal_strlit("7");
                    reveal_strlit("8");
                    reveal_strlit("9");
                    reveal_strlit("10");
                    reveal_strlit("J");
                    reveal_strlit("Q");
                    reveal_strlit("K");
                    reveal_strlit("A");
                    assert(out@ =~= card_text(*self));
                }
                out
            },
            Card::Joker => {
                let out = "joker".to_owned();
                proof {
                    reveal_strlit("joker");
                    assert(out@ =~= card_text(*self));
                }
                out
            },
        }
    }

    /// Parse a card from its text; a malformed text is rejected with a
    /// `ParseError` carrying it.
    pub fn parse(s: &str) -> (r: Result<Card, ParseError>)
        ensures
            match r {
                Ok(c) => card_of_text(s@) == Some(c),
                Err(e) => card_of_text(s@) is None && e.text@ == s@,
            },
    {
        let n = s.unicode_len();
        if n == 5 {
            if s.get_char(0) == 'j' && s.get_char(1) == 'o' && s.get_char(2) == 'k' && s.get_char(3)
                == 'e' && s.get_char(4) == 'r' {
                proof {
                    assert(s@ =~= joker_text());
                }
                return Ok(Card::Joker);
            }
        } else if n == 2 || n == 3 {
            let suit = match parse_suit_exec(s.get_char(0)) {
                Some(suit) => suit,
                None => {
                    return Err(ParseError { text: s.to_owned() });
                },
            };
            if n == 2 {
                match parse_rank_char_exec(s.get_char(1)) {
                    Some(rank) => {
                        proof {
                            assert(s@.subrange(1, 2) =~= seq![s@[1]]);
                        }
                        return Ok(Card::Standard { suit, rank });
                    },
                    None => {
                        proof {
                            assert(s@.subrange(1, 2) =~= seq![s@[1]]);
                        }
                        return Err(ParseError { text: s.to_owned() });
                    },
                }
            } else {
                if s.get_char(1) == '1' && s.get_char(2) == '0' {
                    proof {
                        assert(s@.subrange(1, 3) =~= seq![s@[1], s@[2]]);
                    }
                    return Ok(Card::Standard { suit, rank: Rank::Ten });
                } else {
                    proof {
                        assert(s@.subrange(1, 3) =~= seq![s@[1], s@[2]]);
                    }
                    return Err(ParseError { text: s.to_owned() });
                }
            }
        }
        Err(ParseError { text: s.to_owned() })
    }
}

/// Exec twin of `parse_suit`.
fn parse_suit_exec(c: char) -> (r: Option<Suit>)
    ensures
        r == parse_suit(c),
{
    if c == 'S' {
        Some(Suit::Spade)
    } else if c == 'H' {
        Some(Suit::Heart)
    } else if c == 'D' {
        Some(Suit::Diamond)
    } else if c == 'C' {
        Some(Suit::Club)
    } else {
        None
    }
}

/// Exec twin of `parse_rank_char`.
fn parse_rank_char_exec(c: char) -> (r: Option<Rank>)
    ensures
        r == parse_rank_char(c),
{
    if c == '2' {
        Some(Rank::Two)
    } else if c == '3' {
        Some(Rank::Three)
    } else if c == '4' {
        Some(Rank::Four)
    } else if c == '5' {
        Some(Rank::Five)
    } else if c == '6' {
        Some(Rank::Six)
    } else if c == '7' {
        Some(Rank::Seven)
    } else if c == '8' {
        Some(Rank::Eight)
    } else if c == '9' {
        Some(Rank::Nine)
    } else if c == 'J' {
        Some(Rank::Jack)
    } else if c == 'Q' {
        Some(Rank::Queen)
    } else if c == 'K' {
        Some(Rank::King)
    } else if c == 'A' {
        Some(Rank::Ace)
    } else {
        None
    }
}

/// Law: parsing a card's canonical text yields the card back.
pub proof fn lemma_card_round_trip(c: Card)
    ensures
        card_of_text(card_text(c)) == Some(c),
{
    match c {
        Card::Standard { suit, rank } => {
            let s = card_text(c);
            assert(s.len() == 1 + rank_text(rank).len());
            assert(rank_text(rank).len() <= 2);
            assert(!(s =~= joker_text()));
            assert(s[0] == suit_text(suit)[0]);
            assert(parse_suit(s[0]) == Some(suit));
            assert(s.subrange(1, s.len() as int) =~= rank_text(rank));
            assert(parse_rank(rank_text(rank)) == Some(rank));
        },
        Card::Joker => {
            assert(card_text(c) =~= joker_text());
        },
    }
}

// ---------------------------------------------------------------------------
// Deck generation
// ---------------------------------------------------------------------------
/// The suit of the `i`-th block of thirteen cards in the fresh deck.
pub open spec fn nth_suit(i: int) -> Suit {
    if i == 0 {
        Suit::Club
    } else if i == 1 {
        Suit::Spade
    } else if i == 2 {
        Suit::Heart
    } else {
        Suit::Diamond
    }
}

/// The thirteen cards of one suit, in rank order.
pub open spec fn suit_block(s: Suit) -> Seq<Card> {
    Seq::new(13, |j: int| Card::Standard { suit: s, rank: nth_rank(j) })
}

/// The 56-card deck before shuffling: the four suit blocks, then four jokers.
pub open spec fn fresh_deck() -> Seq<Card> {
    suit_block(Suit::Club) + suit_block(Suit::Spade) + suit_block(Suit::Heart) + suit_block(
        Suit::Diamond,
    ) + seq![Card::Joker, Card::Joker, Card::Joker, Card::Joker]
}

/// rand's standard generator. It is opaque here: a value of it is the
/// randomness capability that deck shuffling consumes.
#[verifier::external_type_specification]
#[verifier::external_body]
pub struct ExStdRng(rand::rngs::StdRng);

/// Relies on rand's `SliceRandom::shuffle`: a Fisher-Yates pass of in-place
/// swaps, so it permutes the slice and the bag of cards is unchanged.
#[verifier::external_body]
fn shuffle_cards(cards: &mut Vec<Card>, rng: &mut rand::rngs::StdRng)
    ensures
        final(cards)@.len() == old(cards)@.len(),
        final(cards)@.to_multiset() == old(cards)@.to_multiset(),
{
    cards.as_mut_slice().shuffle(rng)
}

/// Exec twin of `nth_suit`.
fn suit_of_index(i: usize) -> (s: Suit)
    requires
        i < 4,
    ensures
        s == nth_suit(i as int),
{
    if i == 0 {
        Suit::Club
    } else if i == 1 {
        Suit::Spade
    } else if i == 2 {
        Suit::Heart
    } else {
        Suit::Diamond
    }
}

/// Exec twin of `nth_rank`.
fn rank_of_index(j: usize) -> (r: Rank)
    requires
        j < 13,
    ensures
        r == nth_rank(j as int),
{
    if j == 0 {
        Rank::Two
    } else if j == 1 {
        Rank::Three
    } else if j == 2 {
        Rank::Four
    } else if j == 3 {
        Rank::Five
    } else if j == 4 {
        Rank::Six
    } else if j == 5 {
        Rank::Seven
    } else if j == 6 {
        Rank::Eight
    } else if j == 7 {
        Rank::Nine
    } else if j == 8 {
        Rank::Ten
    } else if j == 9 {
        Rank::Jack
    } else if j == 10 {
        Rank::Queen
    } else if j == 11 {
        Rank::King
    } else {
        Rank::Ace
    }
}

/// Build the fixed 56-card composition and return it in a random order drawn
/// from `rng`. Whatever order comes out, the bag of cards is that of the
/// fresh deck.
pub fn gen_wizard_deck(rng: &mut rand::rngs::StdRng) -> (deck: Vec<Card>)
    ensures
        deck@.len() == 56,
        deck@.to_multiset() == fresh_deck().to_multiset(),
{
    let mut out: Vec<Card> = Vec::new();
    let mut i: usize = 0;
    while i < 4
        invariant
            i <= 4,
            out@ =~= fresh_deck().subrange(0, 13 * (i as int)),
        decreases 4 - i,
    {
        let mut j: usize = 0;
        while j < 13
            invariant
                i < 4,
                j <= 13,
                out@ =~= fresh_deck().subrange(0, 13 * (i as int) + (j as int)),
            decreases 13 - j,
        {
            let card = Card::Standard { suit: suit_of_index(i), rank: rank_of_index(j) };
            assert(fresh_deck()[13 * (i as int) + (j as int)] == card);
            out.push(card);
            j += 1;
        }
        i += 1;
    }
    let mut k: usize = 0;
    while k < 4
        invariant
            k <= 4,
            out@ =~= fresh_deck().subrange(0, 52 + (k as int)),
        decreases 4 - k,
    {
        assert(fresh_deck()[52 + (k as int)] == Card::Joker);
        out.push(Card::Joker);
        k += 1;
    }
    assert(out@ =~= fresh_deck());
    shuffle_cards(&mut out, rng);
    out
}

/// How often a card occurs in one suit block, counting only the first `n`
/// cards of the block.
proof fn lemma_block_prefix_count(s: Suit, c: Card, n: int)
    requires
        0 <= n <= 13,
    ensures
        suit_block(s).subrange(0, n).to_multiset().count(c) == (if (c matches Card::Standard {
            suit,
            rank,
        } && suit == s && rank_order(rank) < n) {
            1nat
        } else {
            0nat
        }),
    decreases n,
{
    broadcast use group_to_multiset_ensures;
    broadcast use group_multiset_properties;

    if n == 0 {
        assert(suit_block(s).subrange(0, 0) =~= Seq::<Card>::empty());
        assert(!Seq::<Card>::empty().contains(c));
    } else {
        lemma_block_prefix_count(s, c, n - 1);
        let pre = suit_block(s).subrange(0, n - 1);
        let last = suit_block(s)[n - 1];
        assert(suit_block(s).subrange(0, n) =~= pre.push(last));
        assert(last == (Card::Standard { suit: s, rank: nth_rank(n - 1) }));
        assert(rank_order(nth_rank(n - 1)) == n - 1);
    }
}

/// How often a card occurs in a whole suit block.
proof fn lemma_suit_block_count(s: Suit, c: Card)
    ensures
        suit_block(s).to_multiset().count(c) == (if (c matches Card::Standard { suit, rank } && suit
            == s) {
            1nat
        } else {
            0nat
        }),
{
    lemma_block_prefix_count(s, c, 13);
    assert(suit_block(s).subrange(0, 13) =~= suit_block(s));
    match c {
        Card::Standard { suit, rank } => {
            assert(rank_order(rank) < 13);
        },
        Card::Joker => {},
    }
}

/// How often a card occurs in the fresh deck.
proof fn lemma_fresh_deck_count(c: Card)
    ensures
        fresh_deck().to_multiset().count(c) == (match c {
            Card::Standard { suit, rank } => 1nat,
            Card::Joker => 4nat,
        }),
{
    broadcast use group_to_multiset_ensures;
    broadcast use group_multiset_properties;

    let b0 = suit_block(Suit::Club);
    let b1 = suit_block(Suit::Spade);
    let b2 = suit_block(Suit::Heart);
    let b3 = suit_block(Suit::Diamond);
    let js = seq![Card::Joker, Card::Joker, Card::Joker, Card::Joker];
    lemma_multiset_commutative(b0, b1);
    lemma_multiset_commutative(b0 + b1, b2);
    lemma_multiset_commutative(b0 + b1 + b2, b3);
    lemma_multiset_commutative(b0 + b1 + b2 + b3, js);
    lemma_suit_block_count(Suit::Club, c);
    lemma_suit_block_count(Suit::Spade, c);
    lemma_suit_block_count(Suit::Heart, c);
    lemma_suit_block_count(Suit::Diamond, c);
    assert(js =~= Seq::<Card>::empty().push(Card::Joker).push(Card::Joker).push(Card::Joker).push(
        Card::Joker,
    ));
    assert(!Seq::<Card>::empty().contains(c));
    assert(js.to_multiset().count(c) == (if c == Card::Joker {
        4nat
    } else {
        0nat
    }));
}

/// Law: the deck composition is fixed. The fresh deck holds 56 cards: each of
/// the 52 standard cards (13 ranks by 4 suits) exactly once, and exactly four
/// jokers. Every shuffled deck holds the same bag of cards.
pub proof fn lemma_fresh_deck_composition()
    ensures
        fresh_deck().len() == 56,
        forall|s: Suit, r: Rank|
            #[trigger] fresh_deck().to_multiset().count(Card::Standard { suit: s, rank: r }) == 1,
        fresh_deck().to_multiset().count(Card::Joker) == 4,
{
    assert forall|s: Suit, r: Rank|
        #[trigger] fresh_deck().to_multiset().count(Card::Standard { suit: s, rank: r })
            == 1 by {
        lemma_fresh_deck_count(Card::Standard { suit: s, rank: r });
    }
    lemma_fresh_deck_count(Card::Joker);
}

} // verus!

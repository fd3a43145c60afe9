//! Cards and the dealing deck of a blackjack table.
//!
//! A deck is an ordered sequence of cards; a fresh deck holds all 52
//! suit/rank combinations in a fixed enumeration order, and dealing
//! removes cards one at a time from the top (the end of the sequence).

use vstd::prelude::*;
use vstd::string::*;

verus! {

/// The four French suits of a standard deck.
#[derive(Clone, Copy, PartialEq, Eq, Structural, Debug)]
pub enum Suit {
    Spades,
    Clubs,
    Hearts,
    Diamonds,
}

/// The thirteen ranks, in the order a fresh deck enumerates them.
#[derive(Clone, Copy, PartialEq, Eq, Structural, Debug)]
pub enum Rank {
    Ace,
    King,
    Queen,
    Jack,
    Ten,
    Nine,
    Eight,
    Seven,
    Six,
    Five,
    Four,
    Three,
    Two,
}

/// A playing card. The rank alone determines the card's numeric value,
/// so value and name can never diverge.
#[derive(Clone, Copy, PartialEq, Eq, Structural, Debug)]
pub struct Card {
    pub suit: Suit,
    pub rank: Rank,
}

/// Blackjack value of a rank: face cards and ten count ten, an ace
/// counts eleven, number cards count their number.
pub open spec fn spec_rank_value(rank: Rank) -> int {
    match rank {
        Rank::Ace => 11,
        Rank::King => 10,
        Rank::Queen => 10,
        Rank::Jack => 10,
        Rank::Ten => 10,
        Rank::Nine => 9,
        Rank::Eight => 8,
        Rank::Seven => 7,
        Rank::Six => 6,
        Rank::Five => 5,
        Rank::Four => 4,
        Rank::Three => 3,
        Rank::Two => 2,
    }
}

pub open spec fn spec_card_value(card: Card) -> int {
    spec_rank_value(card.rank)
}

pub open spec fn spec_rank_label(rank: Rank) -> Seq<char> {
    match rank {
        Rank::Ace => "Ace"@,
        Rank::King => "King"@,
        Rank::Queen => "Queen"@,
        Rank::Jack => "Jack"@,
        Rank::Ten => "10"@,
        Rank::Nine => "9"@,
        Rank::Eight => "8"@,
        Rank::Seven => "7"@,
        Rank::Six => "6"@,
        Rank::Five => "5"@,
        Rank::Four => "4"@,
        Rank::Three => "3"@,
        Rank::Two => "2"@,
    }
}

pub open spec fn spec_suit_label(suit: Suit) -> Seq<char> {
    match suit {
        Suit::Spades => "Spades"@,
        Suit::Clubs => "Clubs"@,
        Suit::Hearts => "Hearts"@,
        Suit::Diamonds => "Diamonds"@,
    }
}

/// The display form of a card: "<rank> of <suit>".
pub open spec fn spec_card_label(card: Card) -> Seq<char> {
    spec_rank_label(card.rank) + " of "@ + spec_suit_label(card.suit)
}

impl Card {
    pub fn new(suit: Suit, rank: Rank) -> (card: Card)
        ensures
            card == (Card { suit, rank }),
    {
        Card { suit, rank }
    }

    /// The card's blackjack value, between 2 and 11.
    pub fn numeric_value(&self) -> (value: u8)
        ensures
            value == spec_card_value(*self),
    {
        match self.rank {
            Rank::Ace => 11,
            Rank::King => 10,
            Rank::Queen => 10,
            Rank::Jack => 10,
            Rank::Ten => 10,
            Rank::Nine => 9,
            Rank::Eight => 8,
            Rank::Seven => 7,
            Rank::Six => 6,
            Rank::Five => 5,
            Rank::Four => 4,
            Rank::Three => 3,
            Rank::Two => 2,
        }
    }

    pub fn rank_label(&self) -> (label: &'static str)
        ensures
            label@ == spec_rank_label(self.rank),
    {
        match self.rank {
            Rank::Ace => "Ace",
            Rank::King => "King",
            Rank::Queen => "Queen",
            Rank::Jack => "Jack",
            Rank::Ten => "10",
            Rank::Nine => "9",
            Rank::Eight => "8",
            Rank::Seven => "7",
            Rank::Six => "6",
            Rank::Five => "5",
            Rank::Four => "4",
            Rank::Three => "3",
            Rank::Two => "2",
        }
    }

    pub fn suit_label(&self) -> (label: &'static str)
        ensures
            label@ == spec_suit_label(self.suit),
    {
        match self.suit {
            Suit::Spades => "Spades",
            Suit::Clubs => "Clubs",
            Suit::Hearts => "Hearts",
            Suit::Diamonds => "Diamonds",
        }
    }

    /// Human-readable form for the display layer: "<rank> of <suit>".
    pub fn label(&self) -> (label: String)
        ensures
            label@ == spec_card_label(*self),
    {
        let label = String::from_str(self.rank_label());
        let label = label.concat(" of ");
        label.concat(self.suit_label())
    }
}

/// Suit at a given position of the fresh-deck enumeration.
pub open spec fn spec_suit_at(i: int) -> Suit {
    if i == 0 {
        Suit::Spades
    } else if i == 1 {
        Suit::Clubs
    } else if i == 2 {
        Suit::Hearts
    } else {
        Suit::Diamonds
    }
}

/// Rank at a given position of the fresh-deck enumeration.
pub open spec fn spec_rank_at(j: int) -> Rank {
    if j == 0 {
        Rank::Ace
    } else if j == 1 {
        Rank::King
    } else if j == 2 {
        Rank::Queen
    } else if j == 3 {
        Rank::Jack
    } else if j == 4 {
        Rank::Ten
    } else if j == 5 {
        Rank::Nine
    } else if j == 6 {
        Rank::Eight
    } else if j == 7 {
        Rank::Seven
    } else if j == 8 {
        Rank::Six
    } else if j == 9 {
        Rank::Five
    } else if j == 10 {
        Rank::Four
    } else if j == 11 {
        Rank::Three
    } else {
        Rank::Two
    }
}

/// The 52 cards of a fresh deck, suit-major, each suit running
/// Ace, King, Queen, Jack, 10, 9, ..., 2.
pub open spec fn standard_deck() -> Seq<Card> {
    Seq::new(52, |i: int| Card { suit: spec_suit_at(i / 13), rank: spec_rank_at(i % 13) })
}

/// The cards that dealing `n` single cards off the top of `deck` yields,
/// in pop order (reverse of the deck's tail).
pub open spec fn spec_dealt(deck: Seq<Card>, n: int) -> Seq<Card> {
    Seq::new(n as nat, |i: int| deck[deck.len() - 1 - i])
}

/// The deck left after dealing `n` cards off the top.
pub open spec fn spec_remaining(deck: Seq<Card>, n: int) -> Seq<Card> {
    deck.take(deck.len() - n)
}

/// Failure of a deal: more cards were requested than remain.
#[derive(Clone, Copy, PartialEq, Eq, Structural, Debug)]
pub enum DeckError {
    DeckExhausted,
}

/// An ordered sequence of cards; dealing takes from the end.
pub struct Deck(pub Vec<Card>);

impl View for Deck {
    type V = Seq<Card>;

    open spec fn view(&self) -> Seq<Card> {
        self.0@
    }
}

/// Relies on rand's `SliceRandom::shuffle` (a Fisher-Yates shuffle run
/// with the thread-local generator): it permutes the slice in place by
/// swaps, so exactly the same cards remain, in an order that nothing
/// here may assume.
#[verifier::external_body]
fn shuffle_cards(cards: &mut Vec<Card>)
    ensures
        final(cards)@.to_multiset() == old(cards)@.to_multiset(),
{
    let mut rng = rand::thread_rng();
    rand::seq::SliceRandom::shuffle(cards.as_mut_slice(), &mut rng);
}

impl Deck {
    /// A fresh, unshuffled deck of all 52 cards in enumeration order.
    pub fn new() -> (deck: Deck)
        ensures
            deck@ == standard_deck(),
    {
        let mut cards: Vec<Card> = Vec::new();
        let mut si: usize = 0;
        while si < 4
            invariant
                si <= 4,
                cards@.len() == 13 * si,
                forall|k: int| 0 <= k < cards@.len() ==> cards@[k] == standard_deck()[k],
            decreases 4 - si,
        {
            let suit = suit_at(si);
            let mut rj: usize = 0;
            while rj < 13
                invariant
                    si < 4,
                    rj <= 13,
                    suit == spec_suit_at(si as int),
                    cards@.len() == 13 * si + rj,
                    forall|k: int| 0 <= k < cards@.len() ==> cards@[k] == standard_deck()[k],
                decreases 13 - rj,
            {
                let card = Card { suit, rank: rank_at(rj) };
                proof {
                    let k = 13 * si + rj;
                    vstd::arithmetic::div_mod::lemma_fundamental_div_mod_converse(
                        k as int, 13, si as int, rj as int);
                    assert(standard_deck()[k as int] == card);
                }
                cards.push(card);
                rj += 1;
            }
            si += 1;
        }
        proof {
            assert(cards@ =~= standard_deck());
        }
        Deck(cards)
    }

    /// Puts the remaining cards in a random order. Every card stays in
    /// the deck: the new sequence is a permutation of the old one.
    pub fn shuffle(&mut self)
        ensures
            final(self)@.to_multiset() == old(self)@.to_multiset(),
            final(self)@.len() == old(self)@.len(),
    {
        shuffle_cards(&mut self.0);
        proof {
            old(self)@.to_multiset_ensures();
            self@.to_multiset_ensures();
        }
    }

    /// Removes and returns the top `n` cards, one at a time, in pop
    /// order. Fails, leaving the deck unchanged, when fewer than `n`
    /// cards remain; it never deals a short hand.
    pub fn deal(&mut self, n: usize) -> (result: Result<Vec<Card>, DeckError>)
        ensures
            result is Ok <==> n <= old(self)@.len(),
            match result {
                Ok(cards) => {
                    &&& cards@ == spec_dealt(old(self)@, n as int)
                    &&& final(self)@ == spec_remaining(old(self)@, n as int)
                },
                Err(e) => {
                    &&& e == DeckError::DeckExhausted
                    &&& final(self)@ == old(self)@
                },
            },
    {
        if n > self.0.len() {
            return Err(DeckError::DeckExhausted);
        }
        let mut dealt: Vec<Card> = Vec::new();
        let mut i: usize = 0;
        while i < n
            invariant
                i <= n <= old(self)@.len(),
                self.0@ == spec_remaining(old(self)@, i as int),
                dealt@ == spec_dealt(old(self)@, i as int),
            decreases n - i,
        {
            let card = self.0.pop().unwrap();
            dealt.push(card);
            proof {
                assert(self.0@ =~= spec_remaining(old(self)@, i + 1));
                assert(dealt@ =~= spec_dealt(old(self)@, i + 1));
            }
            i += 1;
        }
        Ok(dealt)
    }
}

fn suit_at(i: usize) -> (suit: Suit)
    requires
        i < 4,
    ensures
        suit == spec_suit_at(i as int),
{
    match i {
        0 => Suit::Spades,
        1 => Suit::Clubs,
        2 => Suit::Hearts,
        _ => Suit::Diamonds,
    }
}

fn rank_at(j: usize) -> (rank: Rank)
    requires
        j < 13,
    ensures
        rank == spec_rank_at(j as int),
{
    match j {
        0 => Rank::Ace,
        1 => Rank::King,
        2 => Rank::Queen,
        3 => Rank::Jack,
        4 => Rank::Ten,
        5 => Rank::Nine,
        6 => Rank::Eight,
        7 => Rank::Seven,
        8 => Rank::Six,
        9 => Rank::Five,
        10 => Rank::Four,
        11 => Rank::Three,
        _ => Rank::Two,
    }
}

/// A fresh deck holds exactly 52 cards, no two alike, and contains
/// every suit/rank combination; its order is fixed by `standard_deck`.
pub proof fn lemma_standard_deck_complete()
    ensures
        standard_deck().len() == 52,
        forall|i: int, j: int| 0 <= i < j < 52 ==> standard_deck()[i] != standard_deck()[j],
        forall|suit: Suit, rank: Rank|
            standard_deck().contains(Card { suit, rank }),
{
    assert forall|i: int, j: int| 0 <= i < j < 52 implies standard_deck()[i]
        != standard_deck()[j] by {
        vstd::arithmetic::div_mod::lemma_fundamental_div_mod(i, 13);
        vstd::arithmetic::div_mod::lemma_fundamental_div_mod(j, 13);
        if standard_deck()[i] == standard_deck()[j] {
            assert(spec_suit_at(i / 13) == spec_suit_at(j / 13));
            assert(spec_rank_at(i % 13) == spec_rank_at(j % 13));
            assert(i / 13 == j / 13);
            assert(i % 13 == j % 13);
        }
    }
    assert forall|suit: Suit, rank: Rank| standard_deck().contains(
        Card { suit, rank },
    ) by {
        let si = spec_suit_index(suit);
        let rj = spec_rank_index(rank);
        let k = 13 * si + rj;
        vstd::arithmetic::div_mod::lemma_fundamental_div_mod_converse(k, 13, si, rj);
        assert(standard_deck()[k] == (Card { suit, rank }));
    }
}

/// Position of a suit in the fresh-deck enumeration.
pub open spec fn spec_suit_index(suit: Suit) -> int {
    match suit {
        Suit::Spades => 0,
        Suit::Clubs => 1,
        Suit::Hearts => 2,
        Suit::Diamonds => 3,
    }
}

/// Position of a rank within its suit's run of the enumeration.
pub open spec fn spec_rank_index(rank: Rank) -> int {
    match rank {
        Rank::Ace => 0,
        Rank::King => 1,
        Rank::Queen => 2,
        Rank::Jack => 3,
        Rank::Ten => 4,
        Rank::Nine => 5,
        Rank::Eight => 6,
        Rank::Seven => 7,
        Rank::Six => 8,
        Rank::Five => 9,
        Rank::Four => 10,
        Rank::Three => 11,
        Rank::Two => 12,
    }
}

/// Dealing `m` cards and then `k` more from what remains yields the
/// same cards, in the same order, as dealing `m + k` cards at once,
/// and leaves the same deck behind. In particular a deal of `n` cards
/// equals `n` single deals in order.
pub proof fn lemma_deal_composition(deck: Seq<Card>, m: int, k: int)
    requires
        0 <= m,
        0 <= k,
        m + k <= deck.len(),
    ensures
        spec_dealt(deck, m + k) == spec_dealt(deck, m) + spec_dealt(spec_remaining(deck, m), k),
        spec_remaining(deck, m + k) == spec_remaining(spec_remaining(deck, m), k),
{
    assert(spec_dealt(deck, m + k) =~= spec_dealt(deck, m) + spec_dealt(
        spec_remaining(deck, m), k));
    assert(spec_remaining(deck, m + k) =~= spec_remaining(spec_remaining(deck, m), k));
}

/// The cards that `n` single deals yield, one after another, each from
/// what the one before left behind.
pub open spec fn spec_dealt_singly(deck: Seq<Card>, n: int) -> Seq<Card>
    decreases n,
{
    if n <= 0 {
        Seq::empty()
    } else {
        spec_dealt(deck, 1) + spec_dealt_singly(spec_remaining(deck, 1), n - 1)
    }
}

/// `n` single deals yield the same cards, in the same order, as one
/// deal of `n` cards.
pub proof fn lemma_deal_singly(deck: Seq<Card>, n: int)
    requires
        0 <= n <= deck.len(),
    ensures
        spec_dealt_singly(deck, n) == spec_dealt(deck, n),
    decreases n,
{
    if n == 0 {
        assert(spec_dealt(deck, 0) =~= Seq::<Card>::empty());
    } else {
        lemma_deal_composition(deck, 1, n - 1);
        lemma_deal_singly(spec_remaining(deck, 1), n - 1);
    }
}

} // verus!

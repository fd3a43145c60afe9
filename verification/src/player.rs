//! Players, hand valuation, action legality and bet settlement.
//!
//! A participant is either the dealer, who never wagers, or a bettor
//! with a chip stack and a current-round pot. Hands score under the
//! soft-ace rule: aces count eleven, and are counted as one instead,
//! one at a time, until the total fits under 21 or no ace is left.

use vstd::prelude::*;
use vstd::string::*;
use crate::deck::{Card, Deck, Rank, spec_card_value, spec_dealt, spec_remaining};

verus! {

/// A move a player may make while acting on a hand.
#[derive(Clone, Copy, PartialEq, Eq, Structural, Debug)]
pub enum Action {
    Hit,
    Stand,
    Surrender,
    DoubleDown,
}

/// Outcome of a round for one player, settled against the pot.
#[derive(Clone, Copy, PartialEq, Eq, Structural, Debug)]
pub enum BetResult {
    Win,
    Lose,
    Surrender,
    StandOff,
    Blackjack,
}

/// Failure of a betting operation.
#[derive(Clone, Copy, PartialEq, Eq, Structural, Debug)]
pub enum BetError {
    /// The wager exceeds the chips at hand.
    InsufficientChips,
    /// The participant is the dealer, who never wagers.
    NotABettor,
    /// Settlement was asked for while nothing was wagered.
    NoActiveBet,
}

/// What a participant is at the table: the dealer holds no chips and
/// no pot, a bettor holds both.
#[derive(Clone, Copy, PartialEq, Eq, Structural, Debug)]
pub enum Role {
    Dealer,
    Bettor { chips: u32, pot: u32 },
}

/// Sum of the cards' numeric values, aces counted as eleven.
pub open spec fn spec_hand_base(hand: Seq<Card>) -> int
    decreases hand.len(),
{
    if hand.len() == 0 {
        0
    } else {
        spec_hand_base(hand.drop_last()) + spec_card_value(hand.last())
    }
}

/// How many cards of the hand are aces.
pub open spec fn spec_ace_count(hand: Seq<Card>) -> int
    decreases hand.len(),
{
    if hand.len() == 0 {
        0
    } else {
        spec_ace_count(hand.drop_last()) + if hand.last().rank is Ace {
            1int
        } else {
            0int
        }
    }
}

/// Counts aces as one instead of eleven, one at a time, until the
/// total fits under 21 or no ace is left to recount.
pub open spec fn spec_reduce_aces(total: int, aces: int) -> int
    decreases aces,
{
    if total <= 21 || aces <= 0 {
        total
    } else {
        spec_reduce_aces(total - 10, aces - 1)
    }
}

/// The hand's best total under the soft-ace rule.
pub open spec fn spec_hand_total(hand: Seq<Card>) -> int {
    spec_reduce_aces(spec_hand_base(hand), spec_ace_count(hand))
}

/// A natural blackjack: exactly two cards totalling 21.
pub open spec fn spec_has_blackjack(hand: Seq<Card>) -> bool {
    hand.len() == 2 && spec_hand_total(hand) == 21
}

/// Every hand's count of aces, base value and total stay within the
/// bounds the card values force; in particular a total no greater
/// than 21 comes only from a hand of at most 21 cards.
pub proof fn lemma_hand_bounds(hand: Seq<Card>)
    ensures
        0 <= spec_ace_count(hand) <= hand.len(),
        2 * hand.len() + 9 * spec_ace_count(hand) <= spec_hand_base(hand) <= 11 * hand.len(),
        hand.len() <= spec_hand_total(hand) <= spec_hand_base(hand),
    decreases hand.len(),
{
    if hand.len() > 0 {
        lemma_hand_bounds(hand.drop_last());
    }
    lemma_reduce_aces_bounds(spec_hand_base(hand), spec_ace_count(hand));
}

/// Recounting aces takes at most ten off the total per ace and never
/// raises it.
pub proof fn lemma_reduce_aces_bounds(total: int, aces: int)
    requires
        0 <= aces,
    ensures
        total - 10 * aces <= spec_reduce_aces(total, aces) <= total,
    decreases aces,
{
    if !(total <= 21 || aces <= 0) {
        lemma_reduce_aces_bounds(total - 10, aces - 1);
    }
}

/// What settlement credits back to the chips, by outcome: a win pays
/// double the pot, a stand-off returns it, a surrender returns half
/// (rounded down), a natural blackjack pays two and a half times the
/// pot (rounded down), and a loss pays nothing.
pub open spec fn spec_credit(result: BetResult, pot: u32) -> int {
    match result {
        BetResult::Win => 2 * pot,
        BetResult::Lose => 0,
        BetResult::Surrender => pot as int / 2,
        BetResult::StandOff => pot as int,
        BetResult::Blackjack => 2 * pot + pot as int / 2,
    }
}

impl Role {
    /// What placing a wager returns, and the role it leaves behind:
    /// the dealer may not bet, a wager above the stack is refused
    /// untouched, and otherwise the amount moves from chips to pot.
    pub open spec fn spec_bet(self, amount: u32) -> (Result<u32, BetError>, Role) {
        match self {
            Role::Dealer => (Err(BetError::NotABettor), self),
            Role::Bettor { chips, pot } => if amount > chips {
                (Err(BetError::InsufficientChips), self)
            } else {
                (
                    Ok(amount),
                    Role::Bettor { chips: (chips - amount) as u32, pot: (pot + amount) as u32 },
                )
            },
        }
    }

    /// What settling the wager returns, and the role it leaves behind:
    /// the dealer may not settle, an empty pot is refused untouched,
    /// and otherwise the outcome's credit joins the chips and the pot
    /// is emptied.
    pub open spec fn spec_resolve(self, result: BetResult) -> (Result<u32, BetError>, Role) {
        match self {
            Role::Dealer => (Err(BetError::NotABettor), self),
            Role::Bettor { chips, pot } => if pot == 0 {
                (Err(BetError::NoActiveBet), self)
            } else {
                (
                    Ok(spec_credit(result, pot) as u32),
                    Role::Bettor { chips: (chips + spec_credit(result, pot)) as u32, pot: 0 },
                )
            },
        }
    }
}

/// The machine bound a wager must respect: a pot never outgrows `u32`.
pub open spec fn bet_fits(role: Role, amount: u32) -> bool {
    match role {
        Role::Dealer => true,
        Role::Bettor { chips, pot } => amount <= chips ==> pot + amount <= u32::MAX,
    }
}

/// The machine bound a settlement must respect: a credited stack never
/// outgrows `u32`.
pub open spec fn resolve_fits(role: Role, result: BetResult) -> bool {
    match role {
        Role::Dealer => true,
        Role::Bettor { chips, pot } => pot > 0 ==> chips + spec_credit(result, pot) <= u32::MAX,
    }
}

/// Doubling down is only for a bettor whose stack covers the pot, and
/// the doubled pot must respect the machine bound.
pub open spec fn double_down_allowed(role: Role) -> bool {
    match role {
        Role::Dealer => false,
        Role::Bettor { chips, pot } => pot <= chips && pot + pot <= u32::MAX,
    }
}

/// Whether the stack covers the pot, the eligibility test for the
/// double-down offer; the dealer, owing nothing, trivially passes.
pub open spec fn spec_chips_cover_pot(role: Role) -> bool {
    match role {
        Role::Dealer => true,
        Role::Bettor { chips, pot } => chips >= pot,
    }
}

/// The moves open to a player: hit and stand always; surrender only at
/// the first decision, on a two-card hand; double down only then, on a
/// total of 9 to 11, when the stack covers the pot.
pub open spec fn spec_valid_moves(player: Player) -> Seq<Action> {
    if player.hand@.len() == 2 {
        if spec_chips_cover_pot(player.role) && 9 <= spec_hand_total(player.hand@) <= 11 {
            seq![Action::Hit, Action::Stand, Action::Surrender, Action::DoubleDown]
        } else {
            seq![Action::Hit, Action::Stand, Action::Surrender]
        }
    } else {
        seq![Action::Hit, Action::Stand]
    }
}

/// A single participant: the cards currently held, an identifying
/// number, and the dealer or bettor role.
pub struct Player {
    pub hand: Vec<Card>,
    pub number: u8,
    pub role: Role,
}

impl Player {
    pub open spec fn is_bettor(&self) -> bool {
        self.role is Bettor
    }

    /// The chip stack, absent for the dealer.
    pub open spec fn spec_chips(&self) -> Option<u32> {
        match self.role {
            Role::Dealer => None,
            Role::Bettor { chips, pot } => Some(chips),
        }
    }

    /// The current-round wager, absent for the dealer.
    pub open spec fn spec_pot(&self) -> Option<u32> {
        match self.role {
            Role::Dealer => None,
            Role::Bettor { chips, pot } => Some(pot),
        }
    }

    /// A bettor who still holds chips.
    pub open spec fn spec_has_chips(&self) -> bool {
        match self.role {
            Role::Dealer => false,
            Role::Bettor { chips, pot } => chips > 0,
        }
    }

    /// A new participant: an empty hand, and a bettor's stack when
    /// `starting_chips` is positive, the non-betting dealer otherwise.
    pub fn new(starting_chips: u32, number: u8) -> (player: Player)
        ensures
            player.hand@ == Seq::<Card>::empty(),
            player.number == number,
            player.role == (if starting_chips > 0 {
                Role::Bettor { chips: starting_chips, pot: 0 }
            } else {
                Role::Dealer
            }),
    {
        Player {
            hand: Vec::new(),
            number,
            role: if starting_chips > 0 {
                Role::Bettor { chips: starting_chips, pot: 0 }
            } else {
                Role::Dealer
            },
        }
    }

    /// How many aces the hand holds.
    pub fn ace_count(&self) -> (count: usize)
        ensures
            count == spec_ace_count(self.hand@),
    {
        let mut count: usize = 0;
        let mut i: usize = 0;
        while i < self.hand.len()
            invariant
                i <= self.hand@.len(),
                count == spec_ace_count(self.hand@.take(i as int)),
            decreases self.hand@.len() - i,
        {
            proof {
                lemma_hand_bounds(self.hand@.take(i as int));
                assert(self.hand@.take(i + 1).drop_last() =~= self.hand@.take(i as int));
                assert(self.hand@.take(i + 1).last() == self.hand@[i as int]);
            }
            if self.hand[i].rank == Rank::Ace {
                count += 1;
            }
            i += 1;
        }
        proof {
            assert(self.hand@.take(self.hand@.len() as int) =~= self.hand@);
        }
        count
    }

    /// The hand's best total under the soft-ace rule.
    pub fn hand_total(&self) -> (total: u32)
        requires
            spec_hand_base(self.hand@) <= u32::MAX,
        ensures
            total == spec_hand_total(self.hand@),
    {
        let mut base: u32 = 0;
        let mut aces: u32 = 0;
        let mut i: usize = 0;
        while i < self.hand.len()
            invariant
                i <= self.hand@.len(),
                spec_hand_base(self.hand@) <= u32::MAX,
                base == spec_hand_base(self.hand@.take(i as int)),
                aces == spec_ace_count(self.hand@.take(i as int)),
            decreases self.hand@.len() - i,
        {
            proof {
                lemma_hand_base_prefix(self.hand@, i + 1);
                lemma_hand_bounds(self.hand@.take(i + 1));
                assert(self.hand@.take(i + 1).drop_last() =~= self.hand@.take(i as int));
                assert(self.hand@.take(i + 1).last() == self.hand@[i as int]);
            }
            base += self.hand[i].numeric_value() as u32;
            if self.hand[i].rank == Rank::Ace {
                aces += 1;
            }
            i += 1;
        }
        proof {
            assert(self.hand@.take(self.hand@.len() as int) =~= self.hand@);
        }
        let mut total = base;
        let mut aces_left = aces;
        while total > 21 && aces_left > 0
            invariant
                spec_reduce_aces(total as int, aces_left as int) == spec_hand_total(self.hand@),
            decreases aces_left,
        {
            total -= 10;
            aces_left -= 1;
        }
        total
    }

    /// Two cards totalling exactly 21.
    pub fn has_blackjack(&self) -> (blackjack: bool)
        ensures
            blackjack == spec_has_blackjack(self.hand@),
    {
        if self.hand.len() != 2 {
            return false;
        }
        proof {
            lemma_hand_bounds(self.hand@);
        }
        self.hand_total() == 21
    }

    /// The card dealt most recently.
    pub fn latest_card(&self) -> (card: &Card)
        requires
            self.hand@.len() > 0,
        ensures
            *card == self.hand@.last(),
    {
        &self.hand[self.hand.len() - 1]
    }

    /// Deals the top `n` cards of the deck into the hand, keeping
    /// their pop order.
    pub fn get_cards(&mut self, deck: &mut Deck, n: usize)
        requires
            n <= old(deck)@.len(),
        ensures
            final(self).hand@ == old(self).hand@ + spec_dealt(old(deck)@, n as int),
            final(deck)@ == spec_remaining(old(deck)@, n as int),
            final(self).number == old(self).number,
            final(self).role == old(self).role,
    {
        let mut cards = match deck.deal(n) {
            Ok(cards) => cards,
            Err(_) => Vec::new(),
        };
        self.hand.append(&mut cards);
    }

    /// The moves open to the player right now. Asking for a busted
    /// hand is a caller error, ruled out up front.
    pub fn valid_moves(&self) -> (moves: Vec<Action>)
        requires
            spec_hand_total(self.hand@) <= 21,
        ensures
            moves@ == spec_valid_moves(*self),
    {
        proof {
            lemma_hand_bounds(self.hand@);
        }
        let mut moves: Vec<Action> = Vec::new();
        moves.push(Action::Hit);
        moves.push(Action::Stand);
        if self.hand.len() == 2 {
            moves.push(Action::Surrender);
            let covered = match self.role {
                Role::Dealer => true,
                Role::Bettor { chips, pot } => chips >= pot,
            };
            let total = self.hand_total();
            if covered && 9 <= total && total <= 11 {
                moves.push(Action::DoubleDown);
            }
        }
        proof {
            assert(moves@ =~= spec_valid_moves(*self));
        }
        moves
    }

    /// Places a wager: moves `amount` from chips to pot and returns
    /// the amount wagered. Refused without effect when the amount
    /// exceeds the stack or the player is the dealer.
    pub fn bet(&mut self, amount: u32) -> (result: Result<u32, BetError>)
        requires
            bet_fits(old(self).role, amount),
        ensures
            result == old(self).role.spec_bet(amount).0,
            final(self).role == old(self).role.spec_bet(amount).1,
            final(self).hand@ == old(self).hand@,
            final(self).number == old(self).number,
    {
        match self.role {
            Role::Dealer => Err(BetError::NotABettor),
            Role::Bettor { chips, pot } => {
                if amount > chips {
                    Err(BetError::InsufficientChips)
                } else {
                    self.role = Role::Bettor { chips: chips - amount, pot: pot + amount };
                    Ok(amount)
                }
            },
        }
    }

    /// Doubles the wager: re-bets an amount equal to the current pot.
    /// Only for a bettor whose stack covers the pot, the condition
    /// under which the double-down move is offered.
    pub fn double_down(&mut self)
        requires
            double_down_allowed(old(self).role),
        ensures
            final(self).role == match old(self).role {
                Role::Dealer => Role::Dealer,
                Role::Bettor { chips, pot } => Role::Bettor {
                    chips: (chips - pot) as u32,
                    pot: (pot + pot) as u32,
                },
            },
            final(self).hand@ == old(self).hand@,
            final(self).number == old(self).number,
    {
        let amount = match self.role {
            Role::Dealer => 0,
            Role::Bettor { chips: _, pot } => pot,
        };
        let _ = self.bet(amount);
    }

    /// Settles the wager against an outcome: credits the outcome's
    /// payout to the chips, empties the pot, and returns the credited
    /// amount. Refused without effect when nothing was wagered or the
    /// player is the dealer.
    pub fn resolve_bet(&mut self, result: BetResult) -> (credited: Result<u32, BetError>)
        requires
            resolve_fits(old(self).role, result),
        ensures
            credited == old(self).role.spec_resolve(result).0,
            final(self).role == old(self).role.spec_resolve(result).1,
            final(self).hand@ == old(self).hand@,
            final(self).number == old(self).number,
    {
        match self.role {
            Role::Dealer => Err(BetError::NotABettor),
            Role::Bettor { chips, pot } => {
                if pot == 0 {
                    Err(BetError::NoActiveBet)
                } else {
                    let amount = match result {
                        BetResult::Win => 2 * pot,
                        BetResult::Lose => 0,
                        BetResult::Surrender => pot / 2,
                        BetResult::StandOff => pot,
                        BetResult::Blackjack => 2 * pot + pot / 2,
                    };
                    self.role = Role::Bettor { chips: chips + amount, pot: 0 };
                    Ok(amount)
                }
            },
        }
    }

    /// Whether the player has a live wager awaiting settlement. Only
    /// a bettor can be asked.
    pub fn is_in_pot(&self) -> (in_pot: bool)
        requires
            self.is_bettor(),
        ensures
            in_pot <==> (self.spec_pot() matches Some(pot) && pot > 0),
    {
        match self.role {
            Role::Dealer => false,
            Role::Bettor { chips: _, pot } => pot > 0,
        }
    }

    /// Whether the bettor has run out of chips. Only a bettor can be
    /// asked.
    pub fn is_broke(&self) -> (broke: bool)
        requires
            self.is_bettor(),
        ensures
            broke == (self.spec_chips() == Some(0u32)),
    {
        match self.role {
            Role::Dealer => false,
            Role::Bettor { chips, pot: _ } => chips == 0,
        }
    }

    /// The chip stack, absent for the dealer.
    pub fn chips(&self) -> (chips: Option<u32>)
        ensures
            chips == self.spec_chips(),
    {
        match self.role {
            Role::Dealer => None,
            Role::Bettor { chips, pot: _ } => Some(chips),
        }
    }

    /// The current-round wager, absent for the dealer.
    pub fn pot(&self) -> (pot: Option<u32>)
        ensures
            pot == self.spec_pot(),
    {
        match self.role {
            Role::Dealer => None,
            Role::Bettor { chips: _, pot } => Some(pot),
        }
    }

    /// Human-readable form for the display layer: "Player <number>".
    pub fn label(&self) -> (label: String)
        ensures
            label@ == "Player "@ + spec_decimal(self.number as int),
    {
        let mut label = String::from_str("Player ");
        if self.number >= 100 {
            label.append(digit_str(self.number / 100));
        }
        if self.number >= 10 {
            label.append(digit_str((self.number / 10) % 10));
        }
        label.append(digit_str(self.number % 10));
        proof {
            let n = self.number as int;
            if n < 10 {
                assert(spec_decimal(n) == seq![spec_digit_char(n)]);
            } else if n < 100 {
                assert(spec_decimal(n / 10) == seq![spec_digit_char(n / 10)]);
                assert(spec_decimal(n) == spec_decimal(n / 10) + seq![spec_digit_char(n % 10)]);
            } else {
                vstd::arithmetic::div_mod::lemma_div_denominator(n, 10, 10);
                assert(n / 100 < 10);
                assert(spec_decimal(n / 100) == seq![spec_digit_char(n / 100)]);
                assert(spec_decimal(n / 10) == spec_decimal(n / 100) + seq![
                    spec_digit_char((n / 10) % 10),
                ]);
                assert(spec_decimal(n) == spec_decimal(n / 10) + seq![spec_digit_char(n % 10)]);
            }
            assert(label@ =~= "Player "@ + spec_decimal(n));
        }
        label
    }
}

/// The digit characters of a whole number, most significant first.
pub open spec fn spec_decimal(n: int) -> Seq<char>
    decreases n,
{
    if n < 10 {
        seq![spec_digit_char(n)]
    } else {
        spec_decimal(n / 10) + seq![spec_digit_char(n % 10)]
    }
}

pub open spec fn spec_digit_char(d: int) -> char {
    if d == 0 {
        '0'
    } else if d == 1 {
        '1'
    } else if d == 2 {
        '2'
    } else if d == 3 {
        '3'
    } else if d == 4 {
        '4'
    } else if d == 5 {
        '5'
    } else if d == 6 {
        '6'
    } else if d == 7 {
        '7'
    } else if d == 8 {
        '8'
    } else {
        '9'
    }
}

fn digit_str(d: u8) -> (s: &'static str)
    requires
        d < 10,
    ensures
        s@ == seq![spec_digit_char(d as int)],
{
    proof {
        reveal_strlit("0");
        reveal_strlit("1");
        reveal_strlit("2");
        reveal_strlit("3");
        reveal_strlit("4");
        reveal_strlit("5");
        reveal_strlit("6");
        reveal_strlit("7");
        reveal_strlit("8");
        reveal_strlit("9");
    }
    let s = match d {
        0 => "0",
        1 => "1",
        2 => "2",
        3 => "3",
        4 => "4",
        5 => "5",
        6 => "6",
        7 => "7",
        8 => "8",
        _ => "9",
    };
    proof {
        assert(s@ =~= seq![spec_digit_char(d as int)]);
    }
    s
}

/// The outcome a round's settlement uses for one player, given both
/// final totals and whether each side holds a natural blackjack: a
/// blackjack unmatched by the dealer pays as such; otherwise the
/// player wins when the dealer busts or stays below the player's
/// total, ties stand off, and anything else loses.
pub open spec fn spec_round_outcome(
    player_total: u32,
    player_blackjack: bool,
    dealer_total: u32,
    dealer_blackjack: bool,
) -> BetResult {
    if player_blackjack && !dealer_blackjack {
        BetResult::Blackjack
    } else if dealer_total > 21 || dealer_total < player_total {
        BetResult::Win
    } else if dealer_total == player_total {
        BetResult::StandOff
    } else {
        BetResult::Lose
    }
}

/// The settlement rule the round driver follows for each player still
/// in the pot.
pub fn round_outcome(
    player_total: u32,
    player_blackjack: bool,
    dealer_total: u32,
    dealer_blackjack: bool,
) -> (outcome: BetResult)
    ensures
        outcome == spec_round_outcome(player_total, player_blackjack, dealer_total,
            dealer_blackjack),
{
    if player_blackjack && !dealer_blackjack {
        BetResult::Blackjack
    } else if dealer_total > 21 || dealer_total < player_total {
        BetResult::Win
    } else if dealer_total == player_total {
        BetResult::StandOff
    } else {
        BetResult::Lose
    }
}

/// The table's roster: every participant in seating order. Membership
/// never changes after construction; a player out of chips stays
/// seated, only flagged broke.
pub struct PlayerList(pub Vec<Player>);

impl View for PlayerList {
    type V = Seq<Player>;

    open spec fn view(&self) -> Seq<Player> {
        self.0@
    }
}

impl PlayerList {
    /// Seats `n` players numbered 1 through `n`, each with the same
    /// starting stack.
    pub fn new(n: u8, starting_chips: u32) -> (list: PlayerList)
        ensures
            list@.len() == n,
            forall|i: int| 0 <= i < n ==> (#[trigger] list@[i]).hand@ == Seq::<Card>::empty(),
            forall|i: int| 0 <= i < n ==> (#[trigger] list@[i]).number == i + 1,
            forall|i: int|
                0 <= i < n ==> (#[trigger] list@[i]).role == (if starting_chips > 0 {
                    Role::Bettor { chips: starting_chips, pot: 0 }
                } else {
                    Role::Dealer
                }),
    {
        let mut players: Vec<Player> = Vec::new();
        let mut i: u8 = 0;
        while i < n
            invariant
                i <= n,
                players@.len() == i,
                forall|k: int| 0 <= k < i ==> (#[trigger] players@[k]).hand@
                    == Seq::<Card>::empty(),
                forall|k: int| 0 <= k < i ==> (#[trigger] players@[k]).number == k + 1,
                forall|k: int|
                    0 <= k < i ==> (#[trigger] players@[k]).role == (if starting_chips > 0 {
                        Role::Bettor { chips: starting_chips, pot: 0 }
                    } else {
                        Role::Dealer
                    }),
            decreases n - i,
        {
            players.push(Player::new(starting_chips, i + 1));
            i += 1;
        }
        PlayerList(players)
    }

    /// Mutable access to the seated players, in order, for the round
    /// driver's repeated passes.
    pub fn iter_mut(&mut self) -> (players: &mut Vec<Player>)
        ensures
            *players == old(self).0,
            final(self).0 == *final(players),
    {
        &mut self.0
    }

    /// Whether anyone can still play: true exactly when some seated
    /// bettor holds chips.
    pub fn players_left(&self) -> (left: bool)
        ensures
            left <==> exists|i: int| 0 <= i < self@.len() && (#[trigger] self@[i]).spec_has_chips(),
    {
        let mut k: usize = 0;
        while k < self.0.len()
            invariant
                k <= self@.len(),
                forall|i: int| 0 <= i < k ==> !(#[trigger] self@[i]).spec_has_chips(),
            decreases self@.len() - k,
        {
            let has = match self.0[k].role {
                Role::Dealer => false,
                Role::Bettor { chips, pot: _ } => chips > 0,
            };
            if has {
                return true;
            }
            k += 1;
        }
        false
    }

    /// Empties every hand between rounds; chips, pots, numbers and
    /// seating stay as they were.
    pub fn clear_cards(&mut self)
        ensures
            final(self)@.len() == old(self)@.len(),
            forall|i: int|
                0 <= i < old(self)@.len() ==> (#[trigger] final(self)@[i]).hand@
                    == Seq::<Card>::empty(),
            forall|i: int|
                0 <= i < old(self)@.len() ==> (#[trigger] final(self)@[i]).number
                    == old(self)@[i].number,
            forall|i: int|
                0 <= i < old(self)@.len() ==> (#[trigger] final(self)@[i]).role
                    == old(self)@[i].role,
    {
        let mut k: usize = 0;
        while k < self.0.len()
            invariant
                k <= self@.len(),
                self@.len() == old(self)@.len(),
                forall|i: int|
                    0 <= i < k ==> (#[trigger] self@[i]).hand@ == Seq::<Card>::empty(),
                forall|i: int|
                    0 <= i < k ==> (#[trigger] self@[i]).number == old(self)@[i].number,
                forall|i: int|
                    0 <= i < k ==> (#[trigger] self@[i]).role == old(self)@[i].role,
                forall|i: int|
                    k <= i < self@.len() ==> #[trigger] self@[i] == old(self)@[i],
            decreases self@.len() - k,
        {
            let player = &mut self.0[k];
            player.hand.clear();
            k += 1;
        }
    }
}

/// An ace beside any ten-valued card is a natural blackjack: the hand
/// totals exactly 21, in either order.
pub proof fn lemma_ace_and_ten_is_blackjack(ace: Card, ten: Card)
    requires
        ace.rank is Ace,
        spec_card_value(ten) == 10,
    ensures
        spec_hand_total(seq![ace, ten]) == 21,
        spec_hand_total(seq![ten, ace]) == 21,
        spec_has_blackjack(seq![ace, ten]),
        spec_has_blackjack(seq![ten, ace]),
{
    reveal_with_fuel(spec_hand_base, 3);
    reveal_with_fuel(spec_ace_count, 3);
    reveal_with_fuel(spec_reduce_aces, 2);
    assert(seq![ace, ten].drop_last() =~= seq![ace]);
    assert(seq![ten, ace].drop_last() =~= seq![ten]);
    assert(seq![ace].drop_last() =~= Seq::<Card>::empty());
    assert(seq![ten].drop_last() =~= Seq::<Card>::empty());
}

/// Two aces and a nine total 21: one ace keeps its eleven, the other
/// counts as one.
pub proof fn lemma_two_aces_and_nine(first: Card, second: Card, nine: Card)
    requires
        first.rank is Ace,
        second.rank is Ace,
        spec_card_value(nine) == 9,
    ensures
        spec_hand_total(seq![first, second, nine]) == 21,
{
    reveal_with_fuel(spec_hand_base, 4);
    reveal_with_fuel(spec_ace_count, 4);
    reveal_with_fuel(spec_reduce_aces, 2);
    let hand = seq![first, second, nine];
    assert(hand.drop_last() =~= seq![first, second]);
    assert(seq![first, second].drop_last() =~= seq![first]);
    assert(seq![first].drop_last() =~= Seq::<Card>::empty());
    assert(spec_hand_base(hand) == 31);
    assert(spec_ace_count(hand) == 2);
    assert(spec_reduce_aces(31, 2) == spec_reduce_aces(21, 1));
}

/// A wager followed by a stand-off settlement restores the chip stack
/// exactly: betting any affordable amount from an empty pot and then
/// settling at a stand-off leaves the bettor as it began.
pub proof fn lemma_standoff_restores_chips(chips: u32, amount: u32)
    requires
        amount <= chips,
    ensures
        ({
            let before = Role::Bettor { chips, pot: 0 };
            let wagered = before.spec_bet(amount).1;
            wagered.spec_resolve(BetResult::StandOff).1 == before
        }),
{
}

/// A wager followed by a win nets the bettor exactly the amount
/// wagered: the stack moves from `chips` to `chips + amount`.
pub proof fn lemma_win_nets_the_wager(chips: u32, amount: u32)
    requires
        amount <= chips,
        chips + amount <= u32::MAX,
    ensures
        ({
            let before = Role::Bettor { chips, pot: 0 };
            let wagered = before.spec_bet(amount).1;
            wagered.spec_resolve(BetResult::Win).1 == (Role::Bettor {
                chips: (chips + amount) as u32,
                pot: 0,
            })
        }),
{
}

/// The dealer can neither wager nor settle: every such attempt is
/// refused as `NotABettor` and changes nothing.
pub proof fn lemma_dealer_never_bets(amount: u32, result: BetResult)
    ensures
        Role::Dealer.spec_bet(amount) == (Err::<u32, BetError>(BetError::NotABettor), Role::Dealer),
        Role::Dealer.spec_resolve(result) == (
            Err::<u32, BetError>(BetError::NotABettor),
            Role::Dealer,
        ),
{
}

/// A prefix of a hand never has a larger base value than the hand.
pub proof fn lemma_hand_base_prefix(hand: Seq<Card>, i: int)
    requires
        0 <= i <= hand.len(),
    ensures
        spec_hand_base(hand.take(i)) <= spec_hand_base(hand),
    decreases hand.len() - i,
{
    if i < hand.len() {
        lemma_hand_base_prefix(hand, i + 1);
        lemma_card_value_range(hand[i]);
        assert(hand.take(i + 1).drop_last() =~= hand.take(i));
        assert(hand.take(i + 1).last() == hand[i]);
    } else {
        assert(hand.take(i) =~= hand);
    }
}

/// Every card is worth between 2 and 11.
pub proof fn lemma_card_value_range(card: Card)
    ensures
        2 <= spec_card_value(card) <= 11,
{
}

} // verus!

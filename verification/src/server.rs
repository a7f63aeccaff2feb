//! The server's rules: which moves it accepts, and what a move, a pass or a
//! player running out of time does to the round.

use std::collections::{HashMap, VecDeque};
use vstd::prelude::*;
use vstd::std_specs::iter::IteratorSpec;

use crate::components::card::{card_str, Card};
use crate::components::cards::{card_leq, combination_of, ThirteenCombination};
use crate::components::deck::{after_dealing, dealt_run, Deck};
use crate::components::hand::{
    cards_of_text, join_cards, lemma_hand_text_round_trip, names_cards, remove_each_first, Hand,
};
use crate::components::player::Player;
use crate::components::turn::{can_skip, rotated, skip_outcome, skipped, Turn};
use crate::messages::game::AcceptPlayCard;
use crate::messages::error::GameError;

verus! {

broadcast use vstd::std_specs::vecdeque::group_vec_dequeue_axioms;

/// Some card of `a` is stronger than every card of `b`.
pub open spec fn beats(a: Seq<Card>, b: Seq<Card>) -> bool {
    exists|i: int|
        #![trigger a[i]]
        0 <= i < a.len() && forall|j: int|
            0 <= j < b.len() ==> #[trigger] b[j].spec_ordinal() < a[i].spec_ordinal()
}

/// The server's verdict on cards put on the table: they must form a
/// combination, it must be the player's turn, and unless the player leads
/// freely they must match the last cards played in number and not be beaten
/// by them.
pub open spec fn play_verdict(
    put: Seq<Card>,
    player_active: bool,
    last_played: Option<Seq<Card>>,
    allow_free_combo: bool,
) -> Result<(), GameError> {
    if combination_of(put) == ThirteenCombination::NonSense {
        Err(GameError::WrongCombination)
    } else if !player_active {
        Err(GameError::WrongTurn)
    } else {
        match last_played {
            Some(last) => if allow_free_combo {
                Ok(())
            } else if last.len() != put.len() {
                Err(GameError::WrongCombination)
            } else if beats(last, put) {
                Err(GameError::InvalidCards)
            } else {
                Ok(())
            },
            None => Ok(()),
        }
    }
}

/// Checks cards that a player puts on the table against the last cards played.
pub fn check_play(
    put_hand: &Hand,
    player_active: bool,
    last_played: Option<&Hand>,
    allow_free_combo: bool,
) -> (r: Result<(), GameError>)
    ensures
        r == play_verdict(
            put_hand.cards@,
            player_active,
            match last_played {
                Some(h) => Some(h.cards@),
                None => None,
            },
            allow_free_combo,
        ),
{
    if !put_hand.check_combination() {
        return Err(GameError::WrongCombination);
    }
    if !player_active {
        return Err(GameError::WrongTurn);
    }
    if let Some(last_played_hand) = last_played {
        if !allow_free_combo {
            if last_played_hand.len() != put_hand.len() {
                return Err(GameError::WrongCombination);
            }
            // a combination holds at least one card
            let last_high = last_played_hand.highest_value();
            let put_high = put_hand.highest_value();
            let greater = match last_high.cmp_rank_suit(put_high) {
                std::cmp::Ordering::Greater => true,
                _ => false,
            };
            proof {
                let a = last_played_hand.cards@;
                let b = put_hand.cards@;
                if greater {
                    let i = choose|i: int| 0 <= i < a.len() && a[i] == *last_high;
                    assert(forall|j: int| 0 <= j < b.len() ==> #[trigger] b[j].spec_ordinal() < a[i].spec_ordinal());
                } else {
                    let jb = choose|j: int| 0 <= j < b.len() && b[j] == *put_high;
                    assert forall|i: int| #![trigger a[i]] 0 <= i < a.len() implies !(forall|j: int| 0 <= j < b.len() ==> #[trigger] b[j].spec_ordinal() < a[i].spec_ordinal()) by {
                        assert(a[i].spec_ordinal() <= last_high.spec_ordinal());
                        assert(b[jb].spec_ordinal() >= a[i].spec_ordinal());
                    }
                }
            }
            if greater {
                return Err(GameError::InvalidCards);
            }
        }
    }
    Ok(())
}


/// The state of the game that the server keeps.
pub struct Global {
    /// The cards not yet dealt.
    pub deck: Deck,
    /// The history of the cards played in the match, the last played at the end.
    pub table: VecDeque<Hand>,
    /// The player to play leads: they may put down any combination.
    pub leader_turn: bool,
    /// The next cards need not match the last cards played.
    pub allow_free_combo: bool,
    pub total_player: usize,
    pub cur_active_pos: usize,
}

/// What follows from a move the server accepted.
pub struct PlayOutcome {
    /// The cards now on the table.
    pub table_cards: String,
    /// The cards the player still holds.
    pub player_cards: String,
    /// The seat of the player to play next.
    pub next_player: usize,
}

/// What the server does when the player to play runs out of time.
pub enum RunOutAction {
    /// The first card of the leader's sorted hand is played for them.
    AutoPlay { message: AcceptPlayCard, player_cards: String },
    /// The player passes, and play goes on with the given seat.
    Skip { next_player: usize },
    /// Nobody is left to play.
    Nothing,
}

/// The cards last played, if any.
pub open spec fn last_played(table: Seq<Hand>) -> Option<Seq<Card>> {
    if table.len() > 0 {
        Some(table.last().cards@)
    } else {
        None
    }
}

impl Global {
    /// Starts a new match: the table is cleared and seat 0 leads.
    pub fn new_match(&mut self)
        ensures
            final(self).table@ == Seq::<Hand>::empty(),
            final(self).cur_active_pos == 0,
            final(self).leader_turn,
            final(self).allow_free_combo == old(self).allow_free_combo,
            final(self).total_player == old(self).total_player,
            final(self).deck == old(self).deck,
    {
        self.table.clear();
        self.cur_active_pos = 0;
        self.leader_turn = true;
    }

    /// A player puts cards on the table. When the server accepts them, they go on
    /// the table and out of the player's hand, and play moves on.
    pub fn play_card(
        &mut self,
        turn: &mut Turn,
        player_active: bool,
        player_cards: &str,
        put: &str,
    ) -> (r: Result<PlayOutcome, GameError>)
        requires
            // cards that do not parse make the reading panic
            names_cards(put@),
            player_cards@.len() == 0 || names_cards(player_cards@),
            play_verdict(cards_of_text(put@), player_active, last_played(old(self).table@), old(self).allow_free_combo) is Ok
                ==> old(turn)@.pool.len() > 0,
        ensures
            ({
                let put_cards = cards_of_text(put@);
                let verdict = play_verdict(put_cards, player_active, last_played(old(self).table@), old(self).allow_free_combo);
                let held = if player_cards@.len() == 0 { Seq::<Card>::empty() } else { cards_of_text(player_cards@) };
                &&& verdict matches Err(e) ==> r == Err::<PlayOutcome, GameError>(e) && final(self).table@ == old(self).table@
                    && final(self).allow_free_combo == old(self).allow_free_combo && final(turn)@ == old(turn)@
                &&& verdict is Ok ==> {
                    &&& r matches Ok(o) && {
                        &&& o.table_cards@ == join_cards(put_cards)
                        &&& o.player_cards@ == join_cards(remove_each_first(held, put_cards))
                        &&& o.next_player == final(turn)@.pool[0]
                    }
                    &&& final(self).table@.len() == old(self).table@.len() + 1
                    &&& final(self).table@.take(old(self).table@.len() as int) == old(self).table@
                    &&& final(self).table@.last().cards@ == put_cards
                    &&& final(self).allow_free_combo == (old(self).allow_free_combo && old(self).table@.len() == 0)
                    &&& rotated(old(turn)@, final(turn)@)
                }
                &&& final(self).leader_turn == old(self).leader_turn
                &&& final(self).cur_active_pos == old(self).cur_active_pos
                &&& final(self).total_player == old(self).total_player
            }),
    {
        let mut put_hand = Hand::from_str(put);
        let n = self.table.len();
        let verdict = if n > 0 {
            check_play(&put_hand, player_active, Some(&self.table[n - 1]), self.allow_free_combo)
        } else {
            check_play(&put_hand, player_active, None, self.allow_free_combo)
        };
        assert(last_played(self.table@) == if n > 0 { Some(self.table@[n - 1].cards@) } else { None::<Seq<Card>> });
        match verdict {
            Err(e) => {
                return Err(e);
            },
            Ok(()) => {},
        }
        if n > 0 {
            self.allow_free_combo = false;
        }
        // the cards on the table
        let table_cards = put_hand.to_string();
        // the cards of the player
        let mut player_hand = Hand::from_string(player_cards);
        player_hand.remove_cards(put_hand.cards.as_slice());
        let remaining = player_hand.to_string();
        // keep track the history of the card being played
        let ghost old_table = self.table@;
        self.table.push_back(put_hand);
        assert(self.table@.take(old_table.len() as int) =~= old_table);
        let next_player = turn.next_turn().unwrap();
        Ok(PlayOutcome { table_cards, player_cards: remaining, next_player })
    }

    /// The player to play passes. Returns the seat of the next player, if any; a
    /// new round lets its leader put down any combination.
    pub fn skip_turn(&mut self, turn: &mut Turn) -> (r: Option<usize>)
        requires
            can_skip(old(turn)@),
        ensures
            skipped(old(turn)@, final(turn)@),
            r == skip_outcome(old(turn)@).1,
            final(self).allow_free_combo == (if r is Some {
                skip_outcome(old(turn)@).0
            } else {
                old(self).allow_free_combo
            }),
            final(self).table@ == old(self).table@,
            final(self).leader_turn == old(self).leader_turn,
            final(self).cur_active_pos == old(self).cur_active_pos,
            final(self).total_player == old(self).total_player,
    {
        if let (allow_free_combo, Some(next_player)) = turn.skip_turn() {
            // If only 1 player left on the pool, they can play any card they wanted to
            self.allow_free_combo = allow_free_combo;
            Some(next_player)
        } else {
            None
        }
    }

    /// The player to play ran out of time. A leader plays the first card of their sorted hand;
    /// any other player passes.
    pub fn run_out(&mut self, turn: &mut Turn, cur_player_pos: usize, cur_player_cards: &str) -> (r:
        RunOutAction)
        requires
            old(self).leader_turn ==> old(turn)@.pool.len() > 0 && cur_player_cards@.len() > 0
                && names_cards(cur_player_cards@),
            !old(self).leader_turn ==> can_skip(old(turn)@),
        ensures
            old(self).leader_turn ==> {
                let sorted = cards_of_text(cur_player_cards@).sort_by(card_leq());
                &&& r matches RunOutAction::AutoPlay { message, player_cards } && {
                    &&& message.cur_player == cur_player_pos
                    &&& message.cards@ == card_str(sorted[0])
                    &&& message.next_player == final(turn)@.pool[0]
                    &&& !message.run_out_card
                    &&& player_cards@ == join_cards(sorted.drop_first())
                }
                &&& rotated(old(turn)@, final(turn)@)
                &&& final(self).table@.len() == old(self).table@.len() + 1
                &&& final(self).table@.take(old(self).table@.len() as int) == old(self).table@
                &&& final(self).table@.last().cards@ == seq![sorted[0]]
                &&& !final(self).leader_turn
                &&& final(self).cur_active_pos == final(turn)@.pool[0]
            },
            !old(self).leader_turn ==> {
                let (lead, next) = skip_outcome(old(turn)@);
                &&& skipped(old(turn)@, final(turn)@)
                &&& final(self).table@ == old(self).table@
                &&& next matches Some(p) ==> r == RunOutAction::Skip { next_player: p }
                    && final(self).leader_turn == lead && final(self).cur_active_pos == p
                &&& next is None ==> r == RunOutAction::Nothing && final(self).leader_turn == old(self).leader_turn && final(self).cur_active_pos == old(self).cur_active_pos
            },
            final(self).allow_free_combo == old(self).allow_free_combo,
            final(self).total_player == old(self).total_player,
    {
        if self.leader_turn {
            let next_active_pos = turn.next_turn().unwrap();

            let mut hand = Hand::from_string(cur_player_cards);
            proof {
                crate::components::hand::lemma_names_cards_nonempty(cur_player_cards@);
            }
            let card = hand.remove_smallest_card();
            let card_played = card.to_str();
            let player_cards = hand.to_string();

            proof {
                lemma_hand_text_round_trip(seq![card]);
                assert(join_cards(seq![card]) == card_str(card));
            }
            let played = Hand::from_string(card_played.as_str());
            let ghost old_table = self.table@;
            self.table.push_back(played);
            assert(self.table@.take(old_table.len() as int) =~= old_table);

            let data = AcceptPlayCard {
                cur_player: cur_player_pos,
                cards: card_played,
                next_player: next_active_pos,
                run_out_card: false,
            };

            self.leader_turn = false;
            self.cur_active_pos = next_active_pos;
            return RunOutAction::AutoPlay { message: data, player_cards };
        }
        match turn.skip_turn() {
            (next_active_leader_turn, Some(next_active_pos)) => {
                if next_active_leader_turn {
                    self.leader_turn = true;
                }
                self.cur_active_pos = next_active_pos;
                RunOutAction::Skip { next_player: next_active_pos }
            },
            _ => RunOutAction::Nothing,
        }
    }

    /// Starts a game: deals a hand of up to thirteen cards to each of `players`
    /// players, one hand after another, and returns the hands as text.
    pub fn deal_hands(&mut self, players: usize) -> (hands: Vec<String>)
        ensures
            hands@.len() == players,
            forall|i: int| 0 <= i < players ==> #[trigger] hands@[i]@ == join_cards(
                dealt_run(after_dealing(old(self).deck.undealt(), (13 * i) as nat), 13),
            ),
            final(self).deck.undealt() == after_dealing(old(self).deck.undealt(), (13 * players) as nat),
            final(self).deck.all() == old(self).deck.all(),
            final(self).table@ == old(self).table@,
            final(self).leader_turn == old(self).leader_turn,
            final(self).allow_free_combo == old(self).allow_free_combo,
            final(self).cur_active_pos == old(self).cur_active_pos,
            final(self).total_player == old(self).total_player,
    {
        let ghost start = self.deck.undealt();
        let mut hands: Vec<String> = Vec::new();
        let mut i: usize = 0;
        while i < players
            invariant
                i <= players,
                hands@.len() == i,
                forall|k: int| 0 <= k < i ==> #[trigger] hands@[k]@ == join_cards(
                    dealt_run(after_dealing(start, (13 * k) as nat), 13),
                ),
                self.deck.undealt() == after_dealing(start, (13 * i) as nat),
                self.deck.all() == old(self).deck.all(),
                self.table@ == old(self).table@,
                self.leader_turn == old(self).leader_turn,
                self.allow_free_combo == old(self).allow_free_combo,
                self.cur_active_pos == old(self).cur_active_pos,
                self.total_player == old(self).total_player,
                start == old(self).deck.undealt(),
            decreases players - i,
        {
            let mut hand = Hand { cards: self.deck.deal(13) };
            proof {
                lemma_after_dealing_twice(start, (13 * i) as nat, 13);
            }
            hands.push(hand.to_string());
            i = i + 1;
        }
        hands
    }
}

/// Dealing `a` cards and then `b` more deals `a + b` cards.
pub proof fn lemma_after_dealing_twice(s: Seq<Card>, a: nat, b: nat)
    ensures
        after_dealing(after_dealing(s, a), b) == after_dealing(s, a + b),
{
    assert(after_dealing(after_dealing(s, a), b) =~= after_dealing(s, a + b));
}

/// What the server knows of one player.
pub struct PlayerData {
    pub name: String,
    pub pos: usize,
    pub active: bool,
    /// The player's cards: comma-separated short names.
    pub cards: String,
    pub score: u32,
    /// The connection of the player.
    pub user_key: u64,
}

/// The same player, with `active` set as given.
pub open spec fn with_active(p: PlayerData, active: bool) -> PlayerData {
    PlayerData {
        name: p.name,
        pos: p.pos,
        active,
        cards: p.cards,
        score: p.score,
        user_key: p.user_key,
    }
}

/// The same player, holding the given cards.
pub open spec fn with_cards(p: PlayerData, cards: String) -> PlayerData {
    PlayerData {
        name: p.name,
        pos: p.pos,
        active: p.active,
        cards,
        score: p.score,
        user_key: p.user_key,
    }
}

/// The same player, with the given score.
pub open spec fn with_score(p: PlayerData, score: u32) -> PlayerData {
    PlayerData {
        name: p.name,
        pos: p.pos,
        active: p.active,
        cards: p.cards,
        score,
        user_key: p.user_key,
    }
}

/// The players, by their connection.
pub struct PlayerMap(pub HashMap<u64, PlayerData>);

impl PlayerMap {
    pub fn new() -> (m: Self)
        ensures
            m.0@ == Map::<u64, PlayerData>::empty(),
    {
        PlayerMap(HashMap::new())
    }

    /// The player of the connection now holds the given cards.
    pub fn update_cards(&mut self, user_key: &u64, cards: String)
        requires
            old(self).0@.contains_key(*user_key),
        ensures
            final(self).0@ == old(self).0@.insert(*user_key, with_cards(old(self).0@[*user_key], cards)),
    {
        broadcast use vstd::std_specs::hash::group_hash_axioms;

        let p = self.0.remove(user_key).unwrap();
        let updated = PlayerData {
            name: p.name,
            pos: p.pos,
            active: p.active,
            cards,
            score: p.score,
            user_key: p.user_key,
        };
        self.0.insert(*user_key, updated);
        assert(self.0@ =~= old(self).0@.insert(*user_key, with_cards(old(self).0@[*user_key], cards)));
    }

    /// The player at seat `pos` becomes the one to play; all others are not.
    pub fn update_active_player(&mut self, pos: usize)
        ensures
            final(self).0@.dom() == old(self).0@.dom(),
            forall|k: u64| #[trigger] final(self).0@.contains_key(k) ==> final(self).0@[k] == with_active(
                old(self).0@[k],
                old(self).0@[k].pos == pos,
            ),
    {
        broadcast use vstd::std_specs::hash::group_hash_axioms;

        let ghost start = self.0@;
        let ghost ks = vstd::std_specs::hash::spec_keys_iter(&self.0).remaining().map_values(
            |r: &u64| *r,
        );
        proof {
            vstd::std_specs::hash::axiom_spec_keys_iter(&self.0);
            assert(vstd::std_specs::hash::spec_keys_iter(&self.0).remaining().unref() =~= ks);
        }
        let mut keys: Vec<u64> = Vec::new();
        for k in it: self.0.keys()
            invariant
                keys@.len() == it.index(),
                it.seq().map_values(|r: &u64| *r) == ks,
                forall|i: int| 0 <= i < keys@.len() ==> keys@[i] == ks[i],
        {
            keys.push(*k);
        }
        assert(keys@ =~= ks);
        proof {
            assert(ks.to_set() == start.dom());
            assert(ks.no_duplicates());
        }
        let mut i: usize = 0;
        while i < keys.len()
            invariant
                i <= keys@.len(),
                keys@ == ks,
                ks.no_duplicates(),
                ks.to_set() == start.dom(),
                start == old(self).0@,
                self.0@.dom() == start.dom(),
                forall|k: u64| #[trigger] self.0@.contains_key(k) ==> self.0@[k] == if keys@.take(
                    i as int,
                ).contains(k) {
                    with_active(start[k], start[k].pos == pos)
                } else {
                    start[k]
                },
            decreases keys@.len() - i,
        {
            let k = keys[i];
            proof {
                assert(ks.to_set().contains(k));
                assert(!keys@.take(i as int).contains(k)) by {
                    if keys@.take(i as int).contains(k) {
                        let j = choose|j: int| 0 <= j < i && #[trigger] keys@.take(i as int)[j] == k;
                        assert(keys@[j] == keys@[i as int]);
                    }
                }
                assert(keys@.take(i + 1) =~= keys@.take(i as int).push(k));
            }
            let p = self.0.remove(&k).unwrap();
            let active = p.pos == pos;
            let updated = PlayerData {
                name: p.name,
                pos: p.pos,
                active,
                cards: p.cards,
                score: p.score,
                user_key: p.user_key,
            };
            self.0.insert(k, updated);
            proof {
                assert(self.0@.dom() =~= start.dom());
                assert forall|k2: u64| #[trigger] self.0@.contains_key(k2) implies self.0@[k2] == if keys@.take(
                    i + 1,
                ).contains(k2) {
                    with_active(start[k2], start[k2].pos == pos)
                } else {
                    start[k2]
                } by {
                    if k2 != k {
                        assert(keys@.take(i + 1).contains(k2) == keys@.take(i as int).contains(k2));
                    } else {
                        assert(keys@.take(i + 1)[i as int] == k);
                    }
                }
            }
            i = i + 1;
        }
        proof {
            assert(keys@.take(keys@.len() as int) =~= keys@);
            assert forall|k: u64| #[trigger] self.0@.contains_key(k) implies keys@.contains(k) by {
                assert(ks.to_set().contains(k));
            }
        }
    }

    /// The player of the connection scores `score` more points.
    pub fn update_score(&mut self, user_key: &u64, score: u32)
        requires
            old(self).0@.contains_key(*user_key),
            old(self).0@[*user_key].score + score <= u32::MAX,
        ensures
            final(self).0@ == old(self).0@.insert(
                *user_key,
                with_score(old(self).0@[*user_key], (old(self).0@[*user_key].score + score) as u32),
            ),
    {
        broadcast use vstd::std_specs::hash::group_hash_axioms;

        let p = self.0.remove(user_key).unwrap();
        let updated = PlayerData {
            name: p.name,
            pos: p.pos,
            active: p.active,
            cards: p.cards,
            score: p.score + score,
            user_key: p.user_key,
        };
        self.0.insert(*user_key, updated);
        assert(self.0@ =~= old(self).0@.insert(
            *user_key,
            with_score(old(self).0@[*user_key], (old(self).0@[*user_key].score + score) as u32),
        ));
    }

    /// Logging of the players; this library writes no log.
    pub fn debug(&self) {
    }
}

/// Looking into the players at the table.
pub trait PlayerIterator {
    /// Some player is marked as the one to play.
    spec fn some_active(&self) -> bool;

    /// The first player marked as the one to play.
    fn current_active_player(&self) -> &Player
        requires
            self.some_active(),
    ;

    /// Whether some player is not ready to start.
    fn some_player_not_ready(&self) -> bool;
}

impl PlayerIterator for Vec<Player> {
    open spec fn some_active(&self) -> bool {
        exists|i: int| 0 <= i < self@.len() && #[trigger] self@[i].active
    }

    fn current_active_player(&self) -> (p: &Player)
        ensures
            exists|i: int|
                0 <= i < self@.len() && #[trigger] self@[i] == *p && p.active && forall|j: int|
                    0 <= j < i ==> !(#[trigger] self@[j]).active,
    {
        let mut i: usize = 0;
        while i < self.len()
            invariant
                i <= self@.len(),
                self.some_active(),
                forall|j: int| 0 <= j < i ==> !(#[trigger] self@[j]).active,
            decreases self@.len() - i,
        {
            if self[i].active {
                return &self[i];
            }
            i = i + 1;
        }
        &self[0]
    }

    fn some_player_not_ready(&self) -> (b: bool)
        ensures
            b == exists|i: int| 0 <= i < self@.len() && !(#[trigger] self@[i]).ready,
    {
        let mut i: usize = 0;
        while i < self.len()
            invariant
                i <= self@.len(),
                forall|j: int| 0 <= j < i ==> (#[trigger] self@[j]).ready,
            decreases self@.len() - i,
        {
            if !self[i].ready {
                return true;
            }
            i = i + 1;
        }
        false
    }
}

/// Changing the players at the table.
pub trait PlayerIteratorMut {
    /// The player at seat `pos` becomes the one to play; all others are not.
    fn set_next_active(&mut self, pos: usize);

    /// The player to play now holds the given cards.
    fn update_active_player_cards(&mut self, cards: &str);
}

impl PlayerIteratorMut for Vec<PlayerData> {
    fn set_next_active(&mut self, pos: usize)
        ensures
            final(self)@.len() == old(self)@.len(),
            forall|i: int| 0 <= i < final(self)@.len() ==> #[trigger] final(self)@[i] == with_active(
                old(self)@[i],
                old(self)@[i].pos == pos,
            ),
    {
        let mut i: usize = 0;
        while i < self.len()
            invariant
                i <= self@.len(),
                self@.len() == old(self)@.len(),
                forall|j: int| 0 <= j < self@.len() ==> #[trigger] self@[j] == if j < i {
                    with_active(old(self)@[j], old(self)@[j].pos == pos)
                } else {
                    old(self)@[j]
                },
            decreases self@.len() - i,
        {
            let p = self.remove(i);
            let active = p.pos == pos;
            let updated = PlayerData {
                name: p.name,
                pos: p.pos,
                active,
                cards: p.cards,
                score: p.score,
                user_key: p.user_key,
            };
            self.insert(i, updated);
            i = i + 1;
        }
    }

    fn update_active_player_cards(&mut self, cards: &str)
        ensures
            final(self)@.len() == old(self)@.len(),
            forall|i: int| 0 <= i < final(self)@.len() ==> #[trigger] final(self)@[i] == if old(self)@[i].active {
                with_cards(old(self)@[i], final(self)@[i].cards)
            } else {
                old(self)@[i]
            },
            forall|i: int| 0 <= i < final(self)@.len() && old(self)@[i].active ==> (#[trigger] final(self)@[i]).cards@ == cards@,
    {
        let mut i: usize = 0;
        while i < self.len()
            invariant
                i <= self@.len(),
                self@.len() == old(self)@.len(),
                forall|j: int| 0 <= j < self@.len() ==> #[trigger] self@[j] == if j < i && old(self)@[j].active {
                    with_cards(old(self)@[j], self@[j].cards)
                } else {
                    old(self)@[j]
                },
                forall|j: int| 0 <= j < i && old(self)@[j].active ==> (#[trigger] self@[j]).cards@ == cards@,
            decreases self@.len() - i,
        {
            if self[i].active {
                let p = self.remove(i);
                let updated = PlayerData {
                    name: p.name,
                    pos: p.pos,
                    active: p.active,
                    cards: String::from_str(cards),
                    score: p.score,
                    user_key: p.user_key,
                };
                self.insert(i, updated);
            }
            i = i + 1;
        }
    }
}

/// A combination that matches the last play in number is accepted from the
/// player to play when some card of it is at least as strong as every card
/// of the last play, and refused as too weak when some card of the last play
/// is stronger than all of its cards.
pub proof fn lemma_play_strength(put: Seq<Card>, last: Seq<Card>)
    requires
        combination_of(put) != ThirteenCombination::NonSense,
        put.len() == last.len(),
    ensures
        (exists|i: int|
            #![trigger put[i]]
            0 <= i < put.len() && forall|j: int|
                0 <= j < last.len() ==> #[trigger] last[j].spec_ordinal() <= put[i].spec_ordinal())
            ==> play_verdict(put, true, Some(last), false) == Ok::<(), GameError>(()),
        (exists|i: int|
            #![trigger last[i]]
            0 <= i < last.len() && forall|j: int|
                0 <= j < put.len() ==> #[trigger] put[j].spec_ordinal() < last[i].spec_ordinal())
            ==> play_verdict(put, true, Some(last), false) == Err::<(), GameError>(GameError::InvalidCards),
{
    if exists|i: int|
        #![trigger put[i]]
        0 <= i < put.len() && forall|j: int|
            0 <= j < last.len() ==> #[trigger] last[j].spec_ordinal() <= put[i].spec_ordinal() {
        let i0 = choose|i: int|
            #![trigger put[i]]
            0 <= i < put.len() && forall|j: int|
                0 <= j < last.len() ==> #[trigger] last[j].spec_ordinal() <= put[i].spec_ordinal();
        assert forall|i: int| #![trigger last[i]] 0 <= i < last.len() implies !(forall|j: int|
            0 <= j < put.len() ==> #[trigger] put[j].spec_ordinal() < last[i].spec_ordinal()) by {
            assert(last[i].spec_ordinal() <= put[i0].spec_ordinal());
        }
        assert(!beats(last, put));
    }
}

/// One card played on one card of the same rank and a lower suit is accepted.
pub proof fn lemma_higher_suit_beats_same_rank(put: Card, last: Card)
    requires
        put.rank == last.rank,
        last.suit.spec_ordinal() < put.suit.spec_ordinal(),
    ensures
        play_verdict(seq![put], true, Some(seq![last]), false) == Ok::<(), GameError>(()),
{
    lemma_play_strength(seq![put], seq![last]);
    assert(seq![last][0].spec_ordinal() <= seq![put][0].spec_ordinal());
}

} // verus!

use std::collections::{HashSet, VecDeque};
use vstd::prelude::*;

verus! {

broadcast use {
    vstd::std_specs::hash::group_hash_axioms,
    vstd::std_specs::vecdeque::group_vec_dequeue_axioms,
    vstd::set_lib::range_set_properties,
    vstd::set_lib::full_set_properties,
};

/// The order in which the players at the table take their turns.
#[derive(Debug)]
pub struct Turn {
    /// The seats, in turn order, of the players still in the current round; the first is to play.
    pool: VecDeque<usize>,
    /// Players already have no cards
    players_out: HashSet<usize>,
    total_player: usize,
    leader_turn: usize,
}

/// What a `Turn` holds.
pub struct TurnView {
    pub pool: Seq<usize>,
    pub players_out: Set<usize>,
    pub total_player: usize,
    pub leader_turn: usize,
}

impl TurnView {
    /// The number of players who still hold cards.
    pub open spec fn players_left(self) -> int {
        self.total_player - self.players_out.len()
    }
}

impl View for Turn {
    type V = TurnView;

    closed spec fn view(&self) -> TurnView {
        TurnView {
            pool: self.pool@,
            players_out: self.players_out@,
            total_player: self.total_player,
            leader_turn: self.leader_turn,
        }
    }
}

/// The seats 0, 1, ..., n - 1.
pub open spec fn seats(n: nat) -> Seq<usize> {
    Seq::new(n, |i: int| i as usize)
}

/// The seats after seat `b`, going round the table of `total` seats, `m` of them.
pub open spec fn seats_after(b: usize, total: usize, m: nat) -> Seq<usize> {
    Seq::new(m, |k: int| ((b + 1 + k) % (total as int)) as usize)
}

/// The first players of `seats` who still hold cards.
pub open spec fn in_play(s: Seq<usize>, out: Set<usize>) -> Seq<usize> {
    s.filter(|p: usize| !out.contains(p))
}

/// Every set of seat numbers is finite, and one with fewer members than there
/// are seats leaves a seat free.
pub proof fn lemma_free_seat(out: Set<usize>, total: usize)
    requires
        out.len() < total,
    ensures
        out.finite(),
        exists|v: usize| v < total && !out.contains(v),
{
    vstd::set_lib::lemma_len_subset(out, Set::<usize>::full());
    if forall|v: usize| v < total ==> out.contains(v) {
        vstd::set_lib::lemma_len_subset(Set::<usize>::range(0, total), out);
    }
}

proof fn lemma_mod_succ(x: int, t: int)
    requires
        0 < t,
    ensures
        ((x % t) + 1) % t == (x + 1) % t,
{
    vstd::arithmetic::div_mod::lemma_add_mod_noop_right(1, x, t);
}

/// The turn after the player to play passes (see `Turn::skip_turn`).
pub open spec fn skipped(old: TurnView, new: TurnView) -> bool {
    &&& new.players_out == old.players_out
    &&& new.total_player == old.total_player
    &&& new.leader_turn == old.leader_turn
    &&& old.players_left() == 1 ==> new.pool == old.pool
    &&& old.players_left() != 1 && old.pool.len() != 2 ==> new.pool == old.pool.drop_first()
    &&& old.players_left() != 1 && old.pool.len() == 2 ==> {
        let b = old.pool[1];
        exists|m: nat|
            {
                &&& m > 0
                &&& #[trigger] in_play(seats_after(b, old.total_player, m), old.players_out).len()
                    == old.players_left() - 1
                &&& !old.players_out.contains(seats_after(b, old.total_player, m)[m - 1])
                &&& new.pool == seq![b] + in_play(seats_after(b, old.total_player, m), old.players_out)
            }
    }
}

/// What passing returns: whether a new round starts, and the seat of the player to play.
pub open spec fn skip_outcome(old: TurnView) -> (bool, Option<usize>) {
    if old.players_left() == 1 {
        (false, if old.pool.len() > 0 { Some(old.pool[0]) } else { None })
    } else if old.pool.len() == 2 {
        (true, Some(old.pool[1]))
    } else {
        (false, if old.pool.len() > 1 { Some(old.pool[1]) } else { None })
    }
}

/// The turn after the player to play has moved: they go to the end of the
/// order and lead.
pub open spec fn rotated(old: TurnView, new: TurnView) -> bool {
    &&& new.pool == old.pool.drop_first().push(old.pool[0])
    &&& new.leader_turn == old.pool[0]
    &&& new.players_out == old.players_out
    &&& new.total_player == old.total_player
}

/// What passing needs: no more players out than seats, someone to pass, and
/// for a new round, a player left to lead it and a seat number that can be followed.
pub open spec fn can_skip(t: TurnView) -> bool {
    &&& t.players_out.len() <= t.total_player
    &&& t.players_left() != 1 ==> t.pool.len() >= 1
    &&& t.players_left() != 1 && t.pool.len() == 2 ==> t.players_left() >= 2 && t.pool[1] < usize::MAX
}

impl Turn {
    pub fn new(total_player: usize) -> (t: Self)
        ensures
            t@.pool == seats(total_player as nat),
            t@.players_out == Set::<usize>::empty(),
            t@.total_player == total_player,
            t@.leader_turn == 0,
    {
        let mut pool = VecDeque::new();
        let players_out = HashSet::new();

        let mut i: usize = 0;
        while i < total_player
            invariant
                i <= total_player,
                pool@ =~= seats(i as nat),
            decreases total_player - i,
        {
            pool.push_back(i);
            i = i + 1;
        }

        Turn { pool, total_player, players_out, leader_turn: 0 }
    }

    /// The points that the next player to run out of cards scores: 3 when four
    /// players still hold cards, 2 when three, 1 when two, 0 when one.
    pub fn next_score(&self) -> (s: u32)
        requires
            1 <= self@.players_left() <= 4,
        ensures
            s == self@.players_left() - 1,
    {
        let player_left = self.total_player - self.players_out.len();

        let next_score: u32 = match player_left {
            4 => 3,
            3 => 2,
            2 => 1,
            _ => 0,
        };

        next_score
    }

    /// Logging of the turn state; this library writes no log.
    pub fn debug(&self) {
    }

    /// Starts a new match: every seat plays again, in seat order.
    pub fn new_match(&mut self)
        ensures
            final(self)@.pool == seats(old(self)@.total_player as nat),
            final(self)@.players_out == Set::<usize>::empty(),
            final(self)@.total_player == old(self)@.total_player,
            final(self)@.leader_turn == old(self)@.leader_turn,
    {
        self.pool.clear();
        self.players_out.clear();

        let mut i: usize = 0;
        while i < self.total_player
            invariant
                i <= self.total_player,
                self.pool@ =~= seats(i as nat),
                self.players_out@ == Set::<usize>::empty(),
                self.total_player == old(self)@.total_player,
                self.leader_turn == old(self)@.leader_turn,
            decreases self.total_player - i,
        {
            self.pool.push_back(i);
            i = i + 1;
        }
    }

    pub fn only_one_player_left(&self) -> (b: bool)
        requires
            self@.players_out.len() <= self@.total_player,
        ensures
            b == (self@.players_left() == 1),
    {
        (self.total_player - self.players_out.len()) == 1
    }

    /// A new player takes the next seat; a table has room for four players only.
    pub fn new_player_join(&mut self)
        ensures
            old(self)@.total_player > 3 ==> final(self)@ == old(self)@,
            old(self)@.total_player <= 3 ==> {
                &&& final(self)@.pool == old(self)@.pool.push(old(self)@.pool.len() as usize)
                &&& final(self)@.total_player == old(self)@.total_player + 1
                &&& final(self)@.players_out == old(self)@.players_out
                &&& final(self)@.leader_turn == old(self)@.leader_turn
            },
    {
        if self.total_player > 3 {
            // This game only able for 4 players
            return;
        }
        let n = self.pool.len();
        self.pool.push_back(n);
        self.total_player += 1;
    }

    /// The seat of the player to play, if any.
    pub fn current_active_player(&mut self) -> (p: Option<usize>)
        ensures
            *final(self) == *old(self),
            p == (if old(self)@.pool.len() > 0 {
                Some(old(self)@.pool[0])
            } else {
                None
            }),
    {
        if self.pool.len() > 0 {
            Some(self.pool[0])
        } else {
            None
        }
    }

    /// The player to play moves to the end of the order and becomes the leader.
    pub fn make_move(&mut self)
        requires
            old(self)@.pool.len() > 0,
        ensures
            rotated(old(self)@, final(self)@),
    {
        let player_pos = self.pool.pop_front().unwrap();
        self.leader_turn = player_pos;
        self.pool.push_back(player_pos);
        assert(self.pool@ =~= old(self)@.pool.drop_first().push(old(self)@.pool[0]));
    }

    /// Moves play on to the next player, and returns the seat of that player.
    pub fn next_turn(&mut self) -> (p: Option<usize>)
        requires
            old(self)@.pool.len() > 0,
        ensures
            rotated(old(self)@, final(self)@),
            p == Some(final(self)@.pool[0]),
    {
        self.make_move();
        self.current_active_player()
    }

    /// The player to play has no cards left: they leave the order, and the seat
    /// of the next player is returned.
    pub fn player_out(&mut self) -> (p: usize)
        requires
            old(self)@.pool.len() >= 2,
        ensures
            final(self)@.pool == old(self)@.pool.drop_first(),
            final(self)@.players_out == old(self)@.players_out.insert(old(self)@.pool[0]),
            final(self)@.total_player == old(self)@.total_player,
            final(self)@.leader_turn == old(self)@.leader_turn,
            p == old(self)@.pool[1],
    {
        let player_pos = self.pool.pop_front().unwrap();
        self.players_out.insert(player_pos);

        self.debug();

        self.current_active_player().unwrap()
    }

    /// The order becomes `first_player_pos` followed by `total_player - 1` entries
    /// of the seat after it.
    pub fn calculate_turn(&mut self, first_player_pos: usize)
        requires
            old(self)@.total_player >= 1,
            first_player_pos < usize::MAX,
        ensures
            final(self)@.pool == seq![first_player_pos] + Seq::new(
                (old(self)@.total_player - 1) as nat,
                |i: int| ((first_player_pos + 1) % (old(self)@.total_player as int)) as usize,
            ),
            final(self)@.players_out == old(self)@.players_out,
            final(self)@.total_player == old(self)@.total_player,
            final(self)@.leader_turn == old(self)@.leader_turn,
    {
        self.pool.clear();

        self.pool.push_back(first_player_pos);

        let ghost next = ((first_player_pos + 1) % (self.total_player as int)) as usize;
        let mut i: usize = 0;
        while i < self.total_player - 1
            invariant
                self.total_player == old(self)@.total_player,
                self.total_player >= 1,
                first_player_pos < usize::MAX,
                i <= self.total_player - 1,
                next == ((first_player_pos + 1) % (self.total_player as int)) as usize,
                self.pool@ =~= seq![first_player_pos] + Seq::new(i as nat, |k: int| next),
                self.players_out@ == old(self)@.players_out,
                self.leader_turn == old(self)@.leader_turn,
            decreases self.total_player - 1 - i,
        {
            let next_p = (first_player_pos + 1) % self.total_player;
            self.pool.push_back(next_p);
            i = i + 1;
        }
    }

    /// When a single player is left in the order, the others follow in seat order after them.
    pub fn recalculate_turn(&mut self)
        requires
            old(self)@.pool.len() == 1 ==> old(self)@.total_player >= 1 && old(self)@.pool[0]
                < usize::MAX,
        ensures
            old(self)@.pool.len() != 1 ==> final(self)@ == old(self)@,
            old(self)@.pool.len() == 1 ==> final(self)@.pool == seq![old(self)@.pool[0]]
                + seats_after(old(self)@.pool[0], old(self)@.total_player, (old(self)@.total_player
                - 1) as nat),
            final(self)@.players_out == old(self)@.players_out,
            final(self)@.total_player == old(self)@.total_player,
            final(self)@.leader_turn == old(self)@.leader_turn,
    {
        if self.pool.len() == 1 {
            let ghost b = self.pool@[0];
            let ghost t = self.total_player;
            let mut i: usize = 0;
            while i < self.total_player - 1
                invariant
                    self.total_player == t,
                    t >= 1,
                    b < usize::MAX,
                    i <= t - 1,
                    self.pool@ =~= seq![b] + seats_after(b, t, i as nat),
                    self.players_out@ == old(self)@.players_out,
                    self.leader_turn == old(self)@.leader_turn,
                decreases t - 1 - i,
            {
                let back = self.pool[self.pool.len() - 1];
                proof {
                    if i > 0 {
                        assert(back == ((b + 1 + (i - 1)) % (t as int)) as usize);
                        lemma_mod_succ(b + i, t as int);
                    } else {
                        assert(back == b);
                    }
                    assert((back + 1) % (t as int) == (b + 1 + i) % (t as int));
                }
                let next_p = (back + 1) % self.total_player;
                self.pool.push_back(next_p);
                i = i + 1;
            }
        }
    }

    /// The player to play passes. Unless a single player still holds cards, the
    /// player leaves the order of the round; when that leaves one player, that
    /// player leads a new round, and the other players still holding cards follow
    /// in seat order after them. Returns whether a new round starts, and the seat
    /// of the player to play.
    pub fn skip_turn(&mut self) -> (r: (bool, Option<usize>))
        requires
            // a new round with no player left, or after the last seat number, does not end
            can_skip(old(self)@),
        ensures
            skipped(old(self)@, final(self)@),
            r == skip_outcome(old(self)@),
    {
        // FIXME: crazy hack here!!!
        let mut leader_turn = false;

        let player_left = self.total_player - self.players_out.len();

        if player_left == 1 {
            return (leader_turn, self.current_active_player());
        }

        self.pool.pop_front().unwrap();

        if self.pool.len() == 1 {
            leader_turn = true;

            let b = self.pool[0];
            let total = self.total_player;
            let ghost out = self.players_out@;
            proof {
                lemma_free_seat(out, total);
            }
            let ghost v = choose|v: usize| v < total && !out.contains(v);
            let mut last = (b + 1) % total;
            let ghost mut k: nat = 0;

            while self.pool.len() != player_left
                invariant
                    total == self.total_player,
                    total >= 2,
                    player_left == total - out.len(),
                    2 <= player_left <= total,
                    out == self.players_out@,
                    v < total && !out.contains(v),
                    last < total,
                    last == ((b + 1 + k) % (total as int)) as usize,
                    self.pool@ == seq![b] + in_play(seats_after(b, total, k), out),
                    self.pool@.len() <= player_left,
                    k == 0 ==> self.pool@.len() == 1,
                    k > 0 && out.contains(seats_after(b, total, k)[k - 1]) ==> self.pool@.len()
                        < player_left,
                    self.leader_turn == old(self)@.leader_turn,
                decreases player_left - self.pool@.len(), if v >= last {
                    v - last
                } else {
                    v + total - last
                },
            {
                proof {
                    let x = last;
                    assert(seats_after(b, total, k + 1) =~= seats_after(b, total, k).push(x));
                    seats_after(b, total, k).lemma_filter_push(x, |p: usize| !out.contains(p));
                    lemma_mod_succ(b + 1 + k, total as int);
                    if last + 1 < total {
                        vstd::arithmetic::div_mod::lemma_small_mod((last + 1) as nat, total as nat);
                    } else {
                        vstd::arithmetic::div_mod::lemma_mod_self_0(total as int);
                    }
                }
                if !self.players_out.contains(&last) {
                    self.pool.push_back(last);
                }
                proof {
                    assert(self.pool@ =~= seq![b] + in_play(seats_after(b, total, k + 1), out));
                    k = k + 1;
                }
                last = (last + 1) % total;
            }
            proof {
                let m = k;
                assert(in_play(seats_after(b, total, m), out).len() == player_left - 1);
                assert(!out.contains(seats_after(b, total, m)[m - 1]));
            }
        }

        (leader_turn, self.current_active_player())
    }
}

/// Moving on to the next player keeps the same players in the order, each as
/// often as before.
pub proof fn lemma_rotation_keeps_players(old: TurnView, new: TurnView)
    requires
        old.pool.len() > 0,
        rotated(old, new),
    ensures
        new.pool.to_multiset() == old.pool.to_multiset(),
        new.pool.len() == old.pool.len(),
{
    broadcast use vstd::multiset::group_multiset_axioms;
    broadcast use vstd::seq_lib::group_to_multiset_ensures;

    let p = old.pool;
    assert(p =~= seq![p[0]] + p.drop_first());
    vstd::seq_lib::lemma_multiset_commutative(seq![p[0]], p.drop_first());
    vstd::seq_lib::lemma_multiset_commutative(p.drop_first(), seq![p[0]]);
    assert(p.drop_first().push(p[0]) =~= p.drop_first() + seq![p[0]]);
}

/// Going round the table of `total` seats from the seat after `b`, the `k`-th
/// seat reached.
proof fn lemma_seat_after(b: usize, total: usize, k: int)
    requires
        b < total,
        0 <= k < total - 1,
    ensures
        b + 1 + k < total ==> ((b + 1 + k) % (total as int)) == b + 1 + k,
        b + 1 + k >= total ==> ((b + 1 + k) % (total as int)) == b + 1 + k - total,
{
    if b + 1 + k < total {
        vstd::arithmetic::div_mod::lemma_small_mod((b + 1 + k) as nat, total as nat);
    } else {
        vstd::arithmetic::div_mod::lemma_mod_sub_multiples_vanish(b + 1 + k, total as int);
        vstd::arithmetic::div_mod::lemma_small_mod((b + 1 + k - total) as nat, total as nat);
    }
}

/// The seats after `b` round the table, once round, are every other seat, each once.
proof fn lemma_once_round(b: usize, total: usize)
    requires
        b < total,
    ensures
        seats_after(b, total, (total - 1) as nat).no_duplicates(),
        seats_after(b, total, (total - 1) as nat).to_set() == Set::<usize>::range(0, total).remove(b),
{
    let s = seats_after(b, total, (total - 1) as nat);
    assert forall|i: int, j: int| 0 <= i < s.len() && 0 <= j < s.len() && i != j implies s[i] != s[j] by {
        lemma_seat_after(b, total, i);
        lemma_seat_after(b, total, j);
    }
    assert forall|v: usize| s.to_set().contains(v) <==> Set::<usize>::range(0, total).remove(b).contains(v) by {
        if s.to_set().contains(v) {
            let i = choose|i: int| 0 <= i < s.len() && s[i] == v;
            lemma_seat_after(b, total, i);
        }
        if v < total && v != b {
            let k: int = if v > b { v - b - 1 } else { v + total - b - 1 };
            lemma_seat_after(b, total, k);
            assert(s[k] == v);
            assert(s.contains(v));
        }
    }
    assert(s.to_set() =~= Set::<usize>::range(0, total).remove(b));
}

/// Keeping the players still holding cards out of a list that repeats no seat
/// keeps as many seats as its set of seats holds of them.
proof fn lemma_in_play_len(s: Seq<usize>, out: Set<usize>)
    requires
        s.no_duplicates(),
    ensures
        in_play(s, out).len() == s.to_set().filter(|p: usize| !out.contains(p)).len(),
    decreases s.len(),
{
    broadcast use vstd::seq_lib::seq_to_set_is_finite;

    if s.len() == 0 {
        assert(s.to_set() =~= Set::<usize>::empty());
        assert(s.to_set().filter(|p: usize| !out.contains(p)) =~= Set::<usize>::empty());
        assert(in_play(s, out) =~= Seq::<usize>::empty());
    } else {
        let t = s.drop_last();
        let x = s.last();
        assert(s =~= t.push(x));
        assert(t.no_duplicates());
        lemma_in_play_len(t, out);
        t.lemma_filter_push(x, |p: usize| !out.contains(p));
        t.lemma_push_to_set_commute(x);
        assert(!t.to_set().contains(x)) by {
            if t.contains(x) {
                let i = choose|i: int| 0 <= i < t.len() && t[i] == x;
                assert(s[i] == s[s.len() - 1]);
            }
        }
        let ft = t.to_set().filter(|p: usize| !out.contains(p));
        if !out.contains(x) {
            assert(s.to_set().filter(|p: usize| !out.contains(p)) =~= ft.insert(x));
        } else {
            assert(s.to_set().filter(|p: usize| !out.contains(p)) =~= ft);
        }
    }
}

/// Once round the table from the seat after `b`, as many players still hold
/// cards as all but `b` of those who do.
proof fn lemma_once_round_in_play(b: usize, total: usize, out: Set<usize>)
    requires
        b < total,
        !out.contains(b),
        forall|p: usize| #[trigger] out.contains(p) ==> p < total,
    ensures
        out.finite(),
        in_play(seats_after(b, total, (total - 1) as nat), out).len() == total - out.len() - 1,
{
    let r = Set::<usize>::range(0, total);
    assert(out.subset_of(r));
    vstd::set_lib::lemma_len_subset(out, r);
    lemma_once_round(b, total);
    let s = seats_after(b, total, (total - 1) as nat);
    lemma_in_play_len(s, out);
    let d = r.difference(out);
    vstd::set_lib::lemma_set_difference_len(r, out);
    assert(r.intersect(out) =~= out);
    assert(s.to_set().filter(|p: usize| !out.contains(p)) =~= d.remove(b));
    assert(d.contains(b));
}

/// When passing leaves a single player `b` in the round while others still
/// hold cards, `b` leads the new round, and the other players still holding
/// cards follow in seat order going round the table from the seat after `b`.
pub proof fn lemma_new_round_order(old: TurnView, new: TurnView)
    requires
        skipped(old, new),
        old.players_left() != 1,
        old.pool.len() == 2,
        old.pool[1] < old.total_player,
        !old.players_out.contains(old.pool[1]),
        forall|p: usize| #[trigger] old.players_out.contains(p) ==> p < old.total_player,
    ensures
        new.pool == seq![old.pool[1]] + Seq::new(
            (old.total_player - 1) as nat,
            |k: int| ((old.pool[1] + 1 + k) % (old.total_player as int)) as usize,
        ).filter(|p: usize| !old.players_out.contains(p)),
{
    let b = old.pool[1];
    let n = old.total_player;
    let out = old.players_out;
    let m = choose|m: nat|
        {
            &&& m > 0
            &&& #[trigger] in_play(seats_after(b, n, m), out).len() == old.players_left() - 1
            &&& !out.contains(seats_after(b, n, m)[m - 1])
            &&& new.pool == seq![b] + in_play(seats_after(b, n, m), out)
        };
    lemma_once_round_in_play(b, n, out);
    let full = (n - 1) as nat;
    assert(Seq::new(full, |k: int| ((b + 1 + k) % (n as int)) as usize) =~= seats_after(b, n, full));
    if m <= full {
        let tail = Seq::new((full - m) as nat, |k: int| ((b + 1 + m + k) % (n as int)) as usize);
        assert(seats_after(b, n, full) =~= seats_after(b, n, m) + tail);
        Seq::filter_distributes_over_add(seats_after(b, n, m), tail, |p: usize| !out.contains(p));
        assert(in_play(tail, out).len() == 0);
        assert(in_play(tail, out) =~= Seq::<usize>::empty());
        assert(in_play(seats_after(b, n, full), out) =~= in_play(seats_after(b, n, m), out));
    } else {
        let before = (m - 1) as nat;
        let tail = Seq::new((before - full) as nat, |k: int| ((b + 1 + full + k) % (n as int)) as usize);
        assert(seats_after(b, n, before) =~= seats_after(b, n, full) + tail);
        Seq::filter_distributes_over_add(seats_after(b, n, full), tail, |p: usize| !out.contains(p));
        let x = seats_after(b, n, m)[m - 1];
        assert(seats_after(b, n, m) =~= seats_after(b, n, before).push(x));
        seats_after(b, n, before).lemma_filter_push(x, |p: usize| !out.contains(p));
        assert(false);
    }
}

} // verus!

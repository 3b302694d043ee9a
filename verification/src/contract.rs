//! The registry of matches and the operations on it.
//!
//! The registry owns every match and hands out their identifiers, counting up
//! from zero. An operation looks the match up, lets it make its transition,
//! and stores what the transition left; a refused operation leaves the
//! registry as it was. A match stays in the registry after it has ended,
//! until a sweep removes it; only a match that its creator withdrew leaves at
//! once.
//!
//! Each operation is given twice: as a function on [`ContractView`], which
//! says what the operation is, and as a method of [`Contract`], which carries
//! it out.
use crate::error::{Error, InputFault};
use crate::escrow::{views, Balance, Transfer, TransferView};
use crate::game::{AccountId, Game, GameState, GameView, Step};
use vstd::prelude::*;

verus! {

/// The handle of a match.
pub type GameId = u64;

/// One whole token, in the host's smallest unit.
pub const ONE_NEAR: Balance = 1_000_000_000_000_000_000_000_000;

/// The least deposit that opens a match.
pub const MIN_DEPOSIT: Balance = ONE_NEAR;

/// The registry of matches.
pub struct Contract {
    /// The matches, by rising identifier.
    games: Vec<(GameId, Game)>,
    /// The identifier that the next match gets.
    next_game_id: GameId,
}

/// The registry as a mathematical value: a finite map from identifiers to
/// matches, and the identifier that the next match gets.
#[verifier::ext_equal]
pub struct ContractView {
    pub games: Map<GameId, GameView>,
    pub next_game_id: GameId,
}

/// What an operation leaves: the registry after it, and the transfers that it
/// orders, in the order in which they are to be made.
#[verifier::ext_equal]
pub struct Outcome {
    pub contract: ContractView,
    pub transfers: Seq<TransferView>,
}

impl ContractView {
    /// The registry before any match was opened.
    pub open spec fn empty() -> ContractView {
        ContractView { games: Map::empty(), next_game_id: 0 }
    }

    /// Whether the registry holds a match under `game_id`.
    pub open spec fn has(self, game_id: GameId) -> bool {
        self.games.dom().contains(game_id)
    }

    /// What holds of every registry that the operations can reach: it holds
    /// finitely many matches, each well formed, none withdrawn by its
    /// creator, each under an identifier that was handed out.
    pub open spec fn wf(self) -> bool {
        &&& self.games.dom().finite()
        &&& forall|game_id: GameId| #[trigger]
            self.has(game_id) ==> {
                &&& game_id < self.next_game_id
                &&& self.games[game_id].wf()
                &&& !self.games[game_id].cancelled()
            }
    }

    /// A participant opens a match with the deposit `paid`.
    ///
    /// Refused if the deposit is under [`MIN_DEPOSIT`], or if the identifiers
    /// have run out. The match gets the next identifier, which is the result.
    pub open spec fn new_game(self, creator: Seq<char>, paid: Balance) -> Result<
        (ContractView, GameId),
        Error,
    > {
        if paid < MIN_DEPOSIT {
            Err(
                Error::InvalidInput {
                    fault: InputFault::DepositBelowMinimum { minimum: MIN_DEPOSIT },
                },
            )
        } else if self.next_game_id == GameId::MAX {
            Err(Error::ArithmeticOverflow)
        } else {
            Ok(
                (
                    ContractView {
                        games: self.games.insert(
                            self.next_game_id,
                            GameView::opened(creator, paid),
                        ),
                        next_game_id: (self.next_game_id + 1) as GameId,
                    },
                    self.next_game_id,
                ),
            )
        }
    }

    /// The registry after the match under `game_id` became `game`: a match
    /// that its creator withdrew leaves the registry, any other is stored.
    pub open spec fn put(self, game_id: GameId, game: GameView) -> ContractView {
        ContractView {
            games: if game.cancelled() {
                self.games.remove(game_id)
            } else {
                self.games.insert(game_id, game)
            },
            ..self
        }
    }

    /// The outcome of an operation on the match under `game_id`, where
    /// `step` says what the match's own transition gives.
    ///
    /// Refused if the registry holds no such match, or if the match refuses.
    pub open spec fn settle(self, game_id: GameId, step: spec_fn(GameView) -> Result<Step, Error>)
        -> Result<Outcome, Error> {
        if !self.has(game_id) {
            Err(Error::NotFound { game_id })
        } else {
            match step(self.games[game_id]) {
                Ok(done) => Ok(
                    Outcome { contract: self.put(game_id, done.game), transfers: done.transfers },
                ),
                Err(e) => Err(e),
            }
        }
    }

    /// `joiner` joins the match under `game_id` with the deposit `paid`.
    pub open spec fn join_game(self, game_id: GameId, joiner: Seq<char>, paid: Balance) -> Result<
        Outcome,
        Error,
    > {
        self.settle(game_id, |game: GameView| game.join(joiner, paid))
    }

    /// `caller` moves into `cell` of the match under `game_id` at the time
    /// `now`.
    pub open spec fn make_move(
        self,
        game_id: GameId,
        caller: Seq<char>,
        cell: usize,
        now: u64,
    ) -> Result<Outcome, Error> {
        self.settle(game_id, |game: GameView| game.apply_move(caller, cell, now))
    }

    /// `caller` claims the match under `game_id` at the time `now`, because
    /// the other participant let the move deadline pass.
    pub open spec fn get_prize(self, game_id: GameId, caller: Seq<char>, now: u64) -> Result<
        Outcome,
        Error,
    > {
        self.settle(game_id, |game: GameView| game.claim_timeout(caller, now))
    }

    /// `caller` withdraws from the match under `game_id`.
    pub open spec fn cancel_game(self, game_id: GameId, caller: Seq<char>) -> Result<
        Outcome,
        Error,
    > {
        self.settle(game_id, |game: GameView| game.cancel(caller))
    }

    /// Whether the match under `game_id` is open.
    pub open spec fn is_open(self, game_id: GameId) -> bool {
        self.has(game_id) && self.games[game_id].game_state == GameState::GameCreated
    }

    /// Whether `listing` lists the open matches: each of them once, by
    /// rising identifier, each as the registry holds it, and nothing else.
    pub open spec fn lists_open(self, listing: Seq<(GameId, GameView)>) -> bool {
        &&& forall|i: int, j: int|
            0 <= i < j < listing.len() ==> (#[trigger] listing[i]).0 < (#[trigger] listing[j]).0
        &&& forall|i: int|
            0 <= i < listing.len() ==> self.is_open((#[trigger] listing[i]).0)
                && self.games[listing[i].0] == listing[i].1
        &&& forall|game_id: GameId| #[trigger]
            self.is_open(game_id) ==> exists|i: int|
                0 <= i < listing.len() && (#[trigger] listing[i]).0 == game_id
    }

    /// Whether the registry holds just the matches of `listing`, each under
    /// its identifier.
    pub open spec fn holds_just(self, listing: Seq<(GameId, GameView)>) -> bool {
        &&& forall|i: int|
            0 <= i < listing.len() ==> self.has((#[trigger] listing[i]).0)
                && self.games[listing[i].0] == listing[i].1
        &&& forall|game_id: GameId| #[trigger]
            self.has(game_id) ==> exists|i: int|
                0 <= i < listing.len() && (#[trigger] listing[i]).0 == game_id
    }

    /// The registry without the matches that have ended.
    pub open spec fn swept(self) -> ContractView {
        ContractView {
            games: self.games.restrict(
                Set::new(|game_id: GameId| self.games[game_id].game_state != GameState::GameEnded),
            ),
            ..self
        }
    }
}

/// The identifiers and views of a list of matches, in its order.
pub open spec fn listing_of(pairs: Seq<(GameId, Game)>) -> Seq<(GameId, GameView)> {
    pairs.map_values(|pair: (GameId, Game)| (pair.0, pair.1@))
}

/// Whether a registry can hold the matches of `listing` and hand out
/// `next_game_id` next: the identifiers rise strictly and are all under
/// `next_game_id`, and each match is well formed and was not withdrawn by its
/// creator.
pub open spec fn restorable(listing: Seq<(GameId, GameView)>, next_game_id: GameId) -> bool {
    &&& forall|i: int, j: int|
        0 <= i < j < listing.len() ==> (#[trigger] listing[i]).0 < (#[trigger] listing[j]).0
    &&& forall|i: int|
        0 <= i < listing.len() ==> (#[trigger] listing[i]).0 < next_game_id && listing[i].1.wf()
            && !listing[i].1.cancelled()
}

/// Whether the identifiers of `entries` rise strictly.
spec fn rising(entries: Seq<(GameId, Game)>) -> bool {
    forall|i: int, j: int|
        0 <= i < j < entries.len() ==> (#[trigger] entries[i]).0 < (#[trigger] entries[j]).0
}

/// Whether `entries` holds a match under `game_id`.
spec fn holds(entries: Seq<(GameId, Game)>, game_id: GameId) -> bool {
    exists|i: int| 0 <= i < entries.len() && (#[trigger] entries[i]).0 == game_id
}

/// A place in `entries` of the match under `game_id`.
spec fn place(entries: Seq<(GameId, Game)>, game_id: GameId) -> int {
    choose|i: int| 0 <= i < entries.len() && (#[trigger] entries[i]).0 == game_id
}

/// The map that `entries` stands for.
spec fn as_map(entries: Seq<(GameId, Game)>) -> Map<GameId, GameView> {
    Map::new(
        |game_id: GameId| holds(entries, game_id),
        |game_id: GameId| entries[place(entries, game_id)].1@,
    )
}

/// With rising identifiers, the map gives under each entry's identifier
/// that entry's match.
proof fn lemma_entry(entries: Seq<(GameId, Game)>, i: int)
    requires
        rising(entries),
        0 <= i < entries.len(),
    ensures
        holds(entries, entries[i].0),
        place(entries, entries[i].0) == i,
        as_map(entries).dom().contains(entries[i].0),
        as_map(entries)[entries[i].0] == entries[i].1@,
{
    let j = place(entries, entries[i].0);
    assert(entries[j].0 == entries[i].0);
    if j < i {
        assert(entries[j].0 < entries[i].0);
    } else if i < j {
        assert(entries[i].0 < entries[j].0);
    }
}

/// The map of finitely many entries is finite.
proof fn lemma_finite(entries: Seq<(GameId, Game)>)
    ensures
        as_map(entries).dom().finite(),
    decreases entries.len(),
{
    if entries.len() == 0 {
        assert(as_map(entries).dom() =~= Set::<GameId>::empty());
    } else {
        let front = entries.drop_last();
        lemma_finite(front);
        assert(as_map(entries).dom() =~= as_map(front).dom().insert(entries.last().0)) by {
            assert forall|game_id: GameId| holds(entries, game_id) implies holds(front, game_id)
                || game_id == entries.last().0 by {
                let i = place(entries, game_id);
                if i < front.len() {
                    assert(front[i].0 == game_id);
                }
            }
            assert forall|game_id: GameId| holds(front, game_id) implies holds(
                entries,
                game_id,
            ) by {
                let i = place(front, game_id);
                assert(entries[i].0 == game_id);
            }
            assert(entries[entries.len() - 1].0 == entries.last().0);
        }
    }
}

/// Replacing the match of an entry stores it in the map.
proof fn lemma_update(entries: Seq<(GameId, Game)>, i: int, game: Game)
    requires
        rising(entries),
        0 <= i < entries.len(),
    ensures
        rising(entries.update(i, (entries[i].0, game))),
        as_map(entries.update(i, (entries[i].0, game))) == as_map(entries).insert(
            entries[i].0,
            game@,
        ),
{
    let after = entries.update(i, (entries[i].0, game));
    assert(rising(after)) by {
        assert forall|a: int, b: int| 0 <= a < b < after.len() implies (#[trigger] after[a]).0 < (
        #[trigger] after[b]).0 by {
            assert(entries[a].0 < entries[b].0);
        }
    }
    assert forall|game_id: GameId| holds(after, game_id) == holds(entries, game_id) by {
        if holds(after, game_id) {
            assert(entries[place(after, game_id)].0 == game_id);
        }
        if holds(entries, game_id) {
            assert(after[place(entries, game_id)].0 == game_id);
        }
    }
    assert forall|game_id: GameId| holds(after, game_id) implies as_map(after)[game_id] == as_map(
        entries,
    ).insert(entries[i].0, game@)[game_id] by {
        let k = place(after, game_id);
        lemma_entry(after, k);
        lemma_entry(entries, k);
    }
    assert(as_map(after) =~= as_map(entries).insert(entries[i].0, game@));
}

/// Appending a match under an identifier above all others stores it in the
/// map.
proof fn lemma_push(entries: Seq<(GameId, Game)>, game_id: GameId, game: Game)
    requires
        rising(entries),
        forall|i: int| 0 <= i < entries.len() ==> (#[trigger] entries[i]).0 < game_id,
    ensures
        rising(entries.push((game_id, game))),
        as_map(entries.push((game_id, game))) == as_map(entries).insert(game_id, game@),
{
    let after = entries.push((game_id, game));
    assert(rising(after)) by {
        assert forall|a: int, b: int| 0 <= a < b < after.len() implies (#[trigger] after[a]).0 < (
        #[trigger] after[b]).0 by {
            if b < entries.len() {
                assert(entries[a].0 < entries[b].0);
            } else {
                assert(entries[a].0 < game_id);
            }
        }
    }
    assert forall|id: GameId| holds(after, id) == (holds(entries, id) || id == game_id) by {
        if holds(after, id) {
            let k = place(after, id);
            if k < entries.len() {
                assert(entries[k].0 == id);
            }
        }
        if holds(entries, id) {
            assert(after[place(entries, id)].0 == id);
        }
        if id == game_id {
            assert(after[entries.len() as int].0 == id);
        }
    }
    assert forall|id: GameId| holds(after, id) implies as_map(after)[id] == as_map(entries).insert(
        game_id,
        game@,
    )[id] by {
        let k = place(after, id);
        lemma_entry(after, k);
        if k < entries.len() {
            lemma_entry(entries, k);
        }
    }
    assert(as_map(after) =~= as_map(entries).insert(game_id, game@));
}

/// Taking an entry out takes its match out of the map.
proof fn lemma_remove(entries: Seq<(GameId, Game)>, i: int)
    requires
        rising(entries),
        0 <= i < entries.len(),
    ensures
        rising(entries.remove(i)),
        as_map(entries.remove(i)) == as_map(entries).remove(entries[i].0),
{
    let after = entries.remove(i);
    let gone = entries[i].0;
    assert forall|a: int| 0 <= a < after.len() implies #[trigger] after[a] == entries[if a < i {
        a
    } else {
        a + 1
    }] by {}
    assert(rising(after)) by {
        assert forall|a: int, b: int| 0 <= a < b < after.len() implies (#[trigger] after[a]).0 < (
        #[trigger] after[b]).0 by {
            let from_a = if a < i {
                a
            } else {
                a + 1
            };
            let from_b = if b < i {
                b
            } else {
                b + 1
            };
            assert(entries[from_a].0 < entries[from_b].0);
        }
    }
    assert forall|id: GameId| holds(after, id) == (holds(entries, id) && id != gone) by {
        if holds(after, id) {
            let k = place(after, id);
            let from = if k < i {
                k
            } else {
                k + 1
            };
            assert(entries[from].0 == id);
            if from < i {
                assert(entries[from].0 < entries[i].0);
            } else {
                assert(entries[i].0 < entries[from].0);
            }
        }
        if holds(entries, id) && id != gone {
            let k = place(entries, id);
            let to = if k < i {
                k
            } else {
                k - 1
            };
            assert(after[to].0 == id);
        }
    }
    assert forall|id: GameId| holds(after, id) implies as_map(after)[id] == as_map(entries)[id] by {
        let k = place(after, id);
        lemma_entry(after, k);
        lemma_entry(entries, if k < i {
            k
        } else {
            k + 1
        });
    }
    assert(as_map(after) =~= as_map(entries).remove(gone));
}

/// Whether a pass over the registry picks a match in the state `state`: an
/// open one if `open_only`, else one that has not ended.
spec fn picks(state: GameState, open_only: bool) -> bool {
    if open_only {
        state == GameState::GameCreated
    } else {
        state != GameState::GameEnded
    }
}

/// Whether `picked` holds the entries of `entries` that a pass picks, in
/// their order, where `from` gives for each the place it was taken from.
spec fn is_pick(
    entries: Seq<(GameId, Game)>,
    picked: Seq<(GameId, Game)>,
    from: Seq<int>,
    open_only: bool,
) -> bool {
    &&& from.len() == picked.len()
    &&& forall|k: int|
        0 <= k < picked.len() ==> 0 <= #[trigger] from[k] < entries.len() && picked[k]
            == entries[from[k]] && picks(entries[from[k]].1.game_state, open_only)
    &&& forall|a: int, b: int| 0 <= a < b < from.len() ==> #[trigger] from[a] < #[trigger] from[b]
    &&& forall|j: int|
        0 <= j < entries.len() && picks((#[trigger] entries[j]).1.game_state, open_only)
            ==> exists|k: int| 0 <= k < from.len() && #[trigger] from[k] == j
}

/// What a pass picks from entries with rising identifiers has rising
/// identifiers, and stands for the map of the entries, cut down to the
/// matches that the pass picks.
proof fn lemma_pick(
    entries: Seq<(GameId, Game)>,
    picked: Seq<(GameId, Game)>,
    from: Seq<int>,
    open_only: bool,
)
    requires
        rising(entries),
        is_pick(entries, picked, from, open_only),
    ensures
        rising(picked),
        as_map(picked) == as_map(entries).restrict(
            Set::new(|id: GameId| picks(as_map(entries)[id].game_state, open_only)),
        ),
{
    assert(rising(picked)) by {
        assert forall|a: int, b: int| 0 <= a < b < picked.len() implies (#[trigger] picked[a]).0 < (
        #[trigger] picked[b]).0 by {
            assert(from[a] < from[b]);
            assert(entries[from[a]].0 < entries[from[b]].0);
        }
    }
    let cut = as_map(entries).restrict(
        Set::new(|id: GameId| picks(as_map(entries)[id].game_state, open_only)),
    );
    assert forall|id: GameId| #[trigger]
        as_map(picked).dom().contains(id) implies cut.dom().contains(id) && cut[id] == as_map(
        picked,
    )[id] by {
        let k = place(picked, id);
        lemma_entry(picked, k);
        lemma_entry(entries, from[k]);
    }
    assert forall|id: GameId| #[trigger] cut.dom().contains(id) implies as_map(
        picked,
    ).dom().contains(id) by {
        let j = place(entries, id);
        lemma_entry(entries, j);
        let k = choose|k: int| 0 <= k < from.len() && #[trigger] from[k] == j;
        assert(picked[k].0 == id);
    }
    assert(as_map(picked).dom() =~= cut.dom());
    assert(as_map(picked) =~= cut);
}

impl View for Contract {
    type V = ContractView;

    closed spec fn view(&self) -> ContractView {
        ContractView { games: as_map(self.games@), next_game_id: self.next_game_id }
    }
}

impl Contract {
    /// What the operations keep of a registry: its view is well formed, and
    /// it holds its matches by rising identifier.
    pub closed spec fn wf(&self) -> bool {
        &&& rising(self.games@)
        &&& self@.wf()
    }

    /// A registry that the operations keep has a well-formed view.
    pub proof fn lemma_wf_view(&self)
        requires
            self.wf(),
        ensures
            self@.wf(),
    {
    }

    /// The registry before any match was opened.
    pub fn new() -> (contract: Contract)
        ensures
            contract.wf(),
            contract@ == ContractView::empty(),
    {
        let contract = Contract { games: Vec::new(), next_game_id: 0 };
        proof {
            assert(contract@.games =~= Map::<GameId, GameView>::empty());
        }
        contract
    }

    /// The registry that holds `games` and hands out `next_game_id` next, if
    /// there is one: what was stored of a registry is checked here before it
    /// is worked on again.
    pub fn restore(games: Vec<(GameId, Game)>, next_game_id: GameId) -> (res: Option<Contract>)
        ensures
            match res {
                Some(contract) => {
                    &&& restorable(listing_of(games@), next_game_id)
                    &&& contract.wf()
                    &&& contract@.next_game_id == next_game_id
                    &&& contract@.holds_just(listing_of(games@))
                },
                None => !restorable(listing_of(games@), next_game_id),
            },
    {
        let ghost listing = listing_of(games@);
        let mut i: usize = 0;
        while i < games.len()
            invariant
                i <= games.len(),
                listing == listing_of(games@),
                restorable(listing.take(i as int), next_game_id),
            decreases games.len() - i,
        {
            let ghost checked = listing.take(i as int);
            let game_id: GameId = games[i].0;
            let withdrawn: bool = games[i].1.game_state == GameState::GameEnded
                && games[i].1.player2.is_none();
            let fits: bool = game_id < next_game_id && (i == 0 || games[i - 1].0 < game_id)
                && games[i].1.is_valid() && !withdrawn;
            if !fits {
                proof {
                    assert(listing[i as int] == (game_id, games[i as int].1@));
                    if i > 0 {
                        assert(listing[i - 1].0 == games[i - 1].0);
                    }
                }
                return None;
            }
            proof {
                let longer = listing.take(i + 1);
                assert(longer[i as int] == (game_id, games[i as int].1@));
                assert forall|a: int, b: int| 0 <= a < b < longer.len() implies (
                #[trigger] longer[a]).0 < (#[trigger] longer[b]).0 by {
                    if b < i {
                        assert(checked[a].0 < checked[b].0);
                    } else if a < i - 1 {
                        assert(checked[a].0 < checked[i - 1].0);
                        assert(checked[i - 1].0 == games[i - 1].0);
                    } else {
                        assert(longer[a].0 == games[i - 1].0);
                    }
                }
                assert forall|a: int| 0 <= a < longer.len() implies (#[trigger] longer[a]).0
                    < next_game_id && longer[a].1.wf() && !longer[a].1.cancelled() by {
                    if a < i {
                        assert(checked[a] == longer[a]);
                    }
                }
            }
            i = i + 1;
        }
        proof {
            assert(listing.take(i as int) =~= listing);
            assert(rising(games@)) by {
                assert forall|a: int, b: int| 0 <= a < b < games.len() implies (
                #[trigger] games[a]).0 < (#[trigger] games[b]).0 by {
                    assert(listing[a].0 < listing[b].0);
                }
            }
            lemma_finite(games@);
        }
        let contract = Contract { games, next_game_id };
        proof {
            assert forall|id: GameId| #[trigger] contract@.has(id) implies id < next_game_id
                && contract@.games[id].wf() && !contract@.games[id].cancelled() && exists|i: int|
                0 <= i < listing.len() && (#[trigger] listing[i]).0 == id by {
                let k = place(contract.games@, id);
                lemma_entry(contract.games@, k);
                assert(listing[k] == (id, contract.games[k].1@));
            }
            assert forall|i: int| 0 <= i < listing.len() implies contract@.has(
                (#[trigger] listing[i]).0,
            ) && contract@.games[listing[i].0] == listing[i].1 by {
                lemma_entry(contract.games@, i);
            }
        }
        Some(contract)
    }

    /// The identifier that the next match gets.
    pub fn next_game_id(&self) -> (next: GameId)
        ensures
            next == self@.next_game_id,
    {
        self.next_game_id
    }

    /// Where the match under `game_id` is held, if it is.
    fn position(&self, game_id: GameId) -> (at: Option<usize>)
        requires
            self.wf(),
        ensures
            match at {
                Some(i) => i < self.games.len() && self.games[i as int].0 == game_id && self@.has(
                    game_id,
                ) && self@.games[game_id] == self.games[i as int].1@,
                None => !self@.has(game_id),
            },
    {
        let mut i: usize = 0;
        while i < self.games.len()
            invariant
                self.wf(),
                i <= self.games.len(),
                forall|k: int| 0 <= k < i ==> (#[trigger] self.games[k]).0 != game_id,
            decreases self.games.len() - i,
        {
            if self.games[i].0 == game_id {
                proof {
                    lemma_entry(self.games@, i as int);
                }
                return Some(i);
            }
            i = i + 1;
        }
        proof {
            if holds(self.games@, game_id) {
                assert(self.games[place(self.games@, game_id)].0 == game_id);
            }
        }
        None
    }

    /// Opens a match for `creator`, who attached the deposit `paid`, and
    /// gives its identifier.
    pub fn new_game(&mut self, creator: AccountId, paid: Balance) -> (res: Result<GameId, Error>)
        requires
            old(self).wf(),
        ensures
            final(self).wf(),
            match (res, old(self)@.new_game(creator@, paid)) {
                (Ok(game_id), Ok((contract, expected))) => game_id == expected && final(self)@
                    == contract,
                (Err(e), Err(expected)) => e == expected && *final(self) == *old(self),
                _ => false,
            },
    {
        if paid < MIN_DEPOSIT {
            return Err(
                Error::InvalidInput {
                    fault: InputFault::DepositBelowMinimum { minimum: MIN_DEPOSIT },
                },
            );
        }
        if self.next_game_id == GameId::MAX {
            return Err(Error::ArithmeticOverflow);
        }
        let game_id: GameId = self.next_game_id;
        let game = Game::new(creator, paid);
        proof {
            assert forall|i: int| 0 <= i < self.games.len() implies (#[trigger] self.games[i]).0
                < game_id by {
                lemma_entry(self.games@, i);
                assert(self@.has(self.games[i].0));
            }
            lemma_push(self.games@, game_id, game);
            lemma_finite(self.games@.push((game_id, game)));
        }
        self.games.push((game_id, game));
        self.next_game_id = game_id + 1;
        proof {
            assert forall|id: GameId| #[trigger] self@.has(id) implies id < self@.next_game_id
                && self@.games[id].wf() && !self@.games[id].cancelled() by {
                if id != game_id {
                    assert(old(self)@.has(id));
                }
            }
        }
        Ok(game_id)
    }

    /// Stores `game` in place of the match held at `at`, or takes that match
    /// out if `game` was withdrawn by its creator.
    fn put(&mut self, at: usize, game: Game)
        requires
            old(self).wf(),
            at < old(self).games.len(),
            game@.wf(),
        ensures
            final(self).wf(),
            final(self)@ == old(self)@.put(old(self).games[at as int].0, game@),
    {
        let game_id: GameId = self.games[at].0;
        let withdrawn: bool = game.game_state == GameState::GameEnded && game.player2.is_none();
        proof {
            lemma_entry(self.games@, at as int);
            lemma_update(self.games@, at as int, game);
            lemma_remove(self.games@, at as int);
        }
        if withdrawn {
            let _ = self.games.remove(at);
        } else {
            self.games[at] = (game_id, game);
        }
        proof {
            lemma_finite(self.games@);
            assert forall|id: GameId| #[trigger] self@.has(id) implies id < self@.next_game_id
                && self@.games[id].wf() && !self@.games[id].cancelled() by {
                assert(old(self)@.has(id));
            }
        }
    }

    /// Lets `joiner`, who attached the deposit `paid`, join the match under
    /// `game_id`.
    ///
    /// On success the result orders the refund of what was paid over the
    /// stake, if anything was.
    pub fn join_game(&mut self, game_id: GameId, joiner: AccountId, paid: Balance) -> (res: Result<
        Vec<Transfer>,
        Error,
    >)
        requires
            old(self).wf(),
        ensures
            final(self).wf(),
            match (res, old(self)@.join_game(game_id, joiner@, paid)) {
                (Ok(transfers), Ok(outcome)) => final(self)@ == outcome.contract && views(
                    transfers@,
                ) == outcome.transfers,
                (Err(e), Err(expected)) => e == expected && *final(self) == *old(self),
                _ => false,
            },
    {
        let at: usize = match self.position(game_id) {
            Some(i) => i,
            None => {
                return Err(Error::NotFound { game_id });
            },
        };
        proof {
            self.lemma_wf_view();
        }
        let mut game = self.games[at].1.clone();
        match game.join(joiner, paid) {
            Ok(transfers) => {
                self.put(at, game);
                Ok(transfers)
            },
            Err(e) => Err(e),
        }
    }

    /// Makes the move of `caller` into the cell `coordinate` of the match
    /// under `game_id`, at the time `now`.
    ///
    /// On success the result orders the winner's payout if the move won the
    /// match, the two refunds if it drew it, and nothing if the match goes
    /// on.
    pub fn make_move(&mut self, game_id: GameId, caller: &AccountId, coordinate: usize, now: u64)
        -> (res: Result<Vec<Transfer>, Error>)
        requires
            old(self).wf(),
        ensures
            final(self).wf(),
            match (res, old(self)@.make_move(game_id, caller@, coordinate, now)) {
                (Ok(transfers), Ok(outcome)) => final(self)@ == outcome.contract && views(
                    transfers@,
                ) == outcome.transfers,
                (Err(e), Err(expected)) => e == expected && *final(self) == *old(self),
                _ => false,
            },
    {
        let at: usize = match self.position(game_id) {
            Some(i) => i,
            None => {
                return Err(Error::NotFound { game_id });
            },
        };
        proof {
            self.lemma_wf_view();
        }
        let mut game = self.games[at].1.clone();
        match game.apply_move(caller, coordinate, now) {
            Ok(transfers) => {
                self.put(at, game);
                Ok(transfers)
            },
            Err(e) => Err(e),
        }
    }

    /// Ends the match under `game_id` in favour of `caller`, who at the time
    /// `now` has waited past the move deadline.
    ///
    /// On success the result orders the winner's payout to the caller.
    pub fn get_prize(&mut self, game_id: GameId, caller: &AccountId, now: u64) -> (res: Result<
        Vec<Transfer>,
        Error,
    >)
        requires
            old(self).wf(),
        ensures
            final(self).wf(),
            match (res, old(self)@.get_prize(game_id, caller@, now)) {
                (Ok(transfers), Ok(outcome)) => final(self)@ == outcome.contract && views(
                    transfers@,
                ) == outcome.transfers,
                (Err(e), Err(expected)) => e == expected && *final(self) == *old(self),
                _ => false,
            },
    {
        let at: usize = match self.position(game_id) {
            Some(i) => i,
            None => {
                return Err(Error::NotFound { game_id });
            },
        };
        proof {
            self.lemma_wf_view();
        }
        let mut game = self.games[at].1.clone();
        match game.claim_timeout(caller, now) {
            Ok(transfers) => {
                self.put(at, game);
                Ok(transfers)
            },
            Err(e) => Err(e),
        }
    }

    /// Withdraws `caller` from the match under `game_id` before its first
    /// move.
    ///
    /// On success the result orders the refund of the whole stake to the
    /// caller. A match that its creator withdrew leaves the registry.
    pub fn cancel_game(&mut self, game_id: GameId, caller: &AccountId) -> (res: Result<
        Vec<Transfer>,
        Error,
    >)
        requires
            old(self).wf(),
        ensures
            final(self).wf(),
            match (res, old(self)@.cancel_game(game_id, caller@)) {
                (Ok(transfers), Ok(outcome)) => final(self)@ == outcome.contract && views(
                    transfers@,
                ) == outcome.transfers,
                (Err(e), Err(expected)) => e == expected && *final(self) == *old(self),
                _ => false,
            },
    {
        let at: usize = match self.position(game_id) {
            Some(i) => i,
            None => {
                return Err(Error::NotFound { game_id });
            },
        };
        proof {
            self.lemma_wf_view();
        }
        let mut game = self.games[at].1.clone();
        match game.cancel(caller) {
            Ok(transfers) => {
                self.put(at, game);
                Ok(transfers)
            },
            Err(e) => Err(e),
        }
    }

    /// The matches that a pass picks, by rising identifier, and the place
    /// that each was taken from.
    fn pick(&self, open_only: bool) -> (res: (Vec<(GameId, Game)>, Ghost<Seq<int>>))
        ensures
            is_pick(self.games@, res.0@, res.1@, open_only),
    {
        let mut picked: Vec<(GameId, Game)> = Vec::new();
        let ghost mut from: Seq<int> = Seq::empty();
        let mut i: usize = 0;
        while i < self.games.len()
            invariant
                i <= self.games.len(),
                is_pick(self.games@.take(i as int), picked@, from, open_only),
            decreases self.games.len() - i,
        {
            let ghost before = self.games@.take(i as int);
            let ghost after = self.games@.take(i + 1);
            let ghost from_before = from;
            let wanted: bool = if open_only {
                self.games[i].1.game_state == GameState::GameCreated
            } else {
                self.games[i].1.game_state != GameState::GameEnded
            };
            if wanted {
                picked.push((self.games[i].0, self.games[i].1.clone()));
                proof {
                    from = from.push(i as int);
                }
            }
            proof {
                assert forall|j: int| 0 <= j < after.len() && picks(
                    (#[trigger] after[j]).1.game_state,
                    open_only,
                ) implies exists|k: int| 0 <= k < from.len() && #[trigger] from[k] == j by {
                    if j < i {
                        assert(before[j] == after[j]);
                        let k = choose|k: int|
                            0 <= k < from_before.len() && #[trigger] from_before[k] == j;
                        assert(from[k] == j);
                    } else {
                        assert(from[from.len() - 1] == j);
                    }
                }
                assert forall|k: int| 0 <= k < picked.len() implies 0 <= #[trigger] from[k]
                    < after.len() && picked[k] == after[from[k]] && picks(
                    after[from[k]].1.game_state,
                    open_only,
                ) by {
                    if k < from_before.len() {
                        assert(before[from_before[k]] == after[from[k]]);
                    }
                }
                assert forall|a: int, b: int| 0 <= a < b < from.len() implies #[trigger] from[a]
                    < #[trigger] from[b] by {
                    if b < from_before.len() {
                        assert(from_before[a] < from_before[b]);
                    } else {
                        assert(from_before[a] < i);
                    }
                }
            }
            i = i + 1;
        }
        proof {
            assert(self.games@.take(i as int) =~= self.games@);
        }
        (picked, Ghost(from))
    }

    /// The open matches with their identifiers, by rising identifier.
    pub fn available_games(&self) -> (open: Vec<(GameId, Game)>)
        requires
            self.wf(),
        ensures
            self@.lists_open(listing_of(open@)),
    {
        let (open, Ghost(from)) = self.pick(true);
        proof {
            let listing = listing_of(open@);
            lemma_pick(self.games@, open@, from, true);
            assert forall|i: int| 0 <= i < listing.len() implies self@.is_open(
                (#[trigger] listing[i]).0,
            ) && self@.games[listing[i].0] == listing[i].1 by {
                lemma_entry(self.games@, from[i]);
            }
            assert forall|game_id: GameId| #[trigger] self@.is_open(game_id) implies exists|i: int|
                0 <= i < listing.len() && (#[trigger] listing[i]).0 == game_id by {
                let j = place(self.games@, game_id);
                lemma_entry(self.games@, j);
                let k = choose|k: int| 0 <= k < from.len() && #[trigger] from[k] == j;
                assert(listing[k].0 == game_id);
            }
            assert forall|i: int, j: int| 0 <= i < j < listing.len() implies (
            #[trigger] listing[i]).0 < (#[trigger] listing[j]).0 by {
                assert(open[i].0 < open[j].0);
            }
        }
        open
    }

    /// Removes every match that has ended. The matches that are open or in
    /// play stay as they are, and so does the next identifier.
    pub fn state_cleaner(&mut self)
        requires
            old(self).wf(),
        ensures
            final(self).wf(),
            final(self)@ == old(self)@.swept(),
    {
        let (kept, Ghost(from)) = self.pick(false);
        proof {
            lemma_pick(self.games@, kept@, from, false);
            lemma_finite(kept@);
        }
        self.games = kept;
        proof {
            assert(self@.games =~= old(self)@.swept().games);
            assert forall|id: GameId| #[trigger] self@.has(id) implies id < self@.next_game_id
                && self@.games[id].wf() && !self@.games[id].cancelled() by {
                assert(old(self)@.has(id));
            }
        }
    }

    /// The match under `game_id`, as it stands.
    pub fn get_game_state(&self, game_id: GameId) -> (res: Result<Game, Error>)
        requires
            self.wf(),
        ensures
            match res {
                Ok(game) => self@.has(game_id) && game@ == self@.games[game_id],
                Err(e) => !self@.has(game_id) && e == (Error::NotFound { game_id }),
            },
    {
        match self.position(game_id) {
            Some(at) => Ok(self.games[at].1.clone()),
            None => Err(Error::NotFound { game_id }),
        }
    }
}

} // verus!

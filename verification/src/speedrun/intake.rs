//! Taking in the runs of speedrun.com's leaderboards.

use vstd::prelude::*;
use vstd::string::*;
use crate::category::{Category, Region};
use crate::error::Error;
use crate::record::{Record, RecordView};
use crate::speedrun::{
    classified, Src, SrcLeaderboard, SrcLeaderboardRuns, SrcPlayer, SrcRun, SrcUser, SrcValue,
    SrcValueView, SrcVideo,
};
use crate::store::resolve::lemma_resolved_wf;
use crate::store::runners::Source;
use crate::search::{first_index_of, lemma_first_is_found, lemma_none_is_found};
use crate::store::{record_views, Store, StoreView};
use crate::text::{cloned_or_empty, str_eq, text_of, text_or_empty};

verus! {

/// Who made a run, as contracts see it.
pub struct SrcPlayerView {
    pub rel: Seq<char>,
    pub id: Option<Seq<char>>,
    pub name: Option<Seq<char>>,
}

/// A user of a leaderboard, as contracts see it. `international` is the
/// user's international name.
pub struct SrcUserView {
    pub rel: Seq<char>,
    pub id: Option<Seq<char>>,
    pub name: Option<Seq<char>>,
    pub international: Option<Seq<char>>,
}

/// What this library reads of a run: `player` is the first of its players,
/// the times are 0 where the run has none, `comment` is empty where it has
/// none, and `video` is the address of its first video, or empty.
pub struct SrcRunView {
    pub id: Seq<char>,
    pub category: Option<Seq<char>>,
    pub values: Option<SrcValueView>,
    pub player: Option<SrcPlayerView>,
    pub realtime: int,
    pub gametime: int,
    pub comment: Seq<char>,
    pub video: Seq<char>,
}

/// What this library reads of a leaderboard.
pub struct SrcLeaderboardView {
    pub players: Seq<SrcUserView>,
    pub runs: Seq<SrcRunView>,
}

impl View for SrcPlayer {
    type V = SrcPlayerView;

    open spec fn view(&self) -> SrcPlayerView {
        SrcPlayerView { rel: self.rel@, id: text_of(self.id), name: text_of(self.name) }
    }
}

impl View for SrcUser {
    type V = SrcUserView;

    open spec fn view(&self) -> SrcUserView {
        SrcUserView {
            rel: self.rel@,
            id: text_of(self.id),
            name: text_of(self.name),
            international: match self.names {
                Some(names) => Some(names.international@),
                None => None,
            },
        }
    }
}

/// The address of the first of a run's videos, empty where there is none.
pub open spec fn first_video(videos: Option<SrcVideo>) -> Seq<char> {
    match videos {
        Some(SrcVideo { links: Some(links), .. }) => if links.len() > 0 {
            text_or_empty(text_of(links[0].uri))
        } else {
            Seq::empty()
        },
        _ => Seq::empty(),
    }
}

/// A number of seconds, 0 where there is none.
pub open spec fn seconds_or_zero(seconds: Option<i32>) -> int {
    match seconds {
        Some(t) => t as int,
        None => 0,
    }
}

impl View for SrcRun {
    type V = SrcRunView;

    open spec fn view(&self) -> SrcRunView {
        SrcRunView {
            id: self.id@,
            category: text_of(self.category),
            values: match self.values {
                Some(values) => Some(values@),
                None => None,
            },
            player: if self.players.len() > 0 {
                Some(self.players[0]@)
            } else {
                None
            },
            realtime: seconds_or_zero(self.times.realtime_t),
            gametime: seconds_or_zero(self.times.ingame_t),
            comment: text_or_empty(text_of(self.comment)),
            video: first_video(self.videos),
        }
    }
}

/// The views of a sequence of users.
pub open spec fn user_views(users: Seq<SrcUser>) -> Seq<SrcUserView> {
    users.map_values(|u: SrcUser| u@)
}

impl View for SrcLeaderboard {
    type V = SrcLeaderboardView;

    open spec fn view(&self) -> SrcLeaderboardView {
        SrcLeaderboardView {
            players: user_views(self.players.data@),
            runs: self.runs@.map_values(|r: SrcLeaderboardRuns| r.run@),
        }
    }
}

/// The views of a sequence of leaderboards.
pub open spec fn leaderboard_views(boards: Seq<SrcLeaderboard>) -> Seq<SrcLeaderboardView> {
    boards.map_values(|b: SrcLeaderboard| b@)
}

impl SrcPlayerView {
    /// Whether `user` is the one that this player stands for: a user by the
    /// same identifier, a guest by the same name.
    pub open spec fn is_user(self, user: SrcUserView) -> bool {
        if self.rel == "user"@ {
            user.id == Some(text_or_empty(self.id))
        } else {
            user.name == Some(text_or_empty(self.name))
        }
    }
}

impl SrcUserView {
    /// The identifier at speedrun.com and the name under which the user is
    /// resolved. A user of speedrun.com needs an identifier and an
    /// international name; a guest needs a name and has no identifier. One
    /// without is `InvalidData`.
    pub open spec fn identity(self) -> Result<(Seq<char>, Seq<char>), Error> {
        if self.rel == "user"@ {
            match (self.id, self.international) {
                (Some(id), Some(name)) => Ok((id, name)),
                _ => Err(Error::InvalidData),
            }
        } else {
            match self.name {
                Some(name) => Ok((Seq::empty(), name)),
                None => Err(Error::InvalidData),
            }
        }
    }
}

impl SrcRunView {
    /// The category and region of the run: `Unknown` and NTSC where the run
    /// names no category or has no values.
    pub open spec fn class(self) -> (Category, Region) {
        match (self.category, self.values) {
            (Some(category_id), Some(values)) => classified(category_id, values),
            _ => (Category::Unknown, Region::NTSC),
        }
    }

    /// The run as a record that no store holds yet, by the runner
    /// `runner_id`.
    pub open spec fn observed(self, runner_id: int) -> RecordView {
        RecordView {
            id: 0,
            dt_id: 0,
            src_id: self.id,
            runner_id,
            category: self.class().0,
            region: self.class().1,
            realtime: self.realtime,
            gametime: self.gametime,
            comment: self.comment,
            video: self.video,
            active: 1,
        }
    }
}

/// The row of the first of `players` that `player` stands for.
pub open spec fn user_of(players: Seq<SrcUserView>, player: SrcPlayerView) -> Option<int> {
    first_index_of(players, |u: SrcUserView| player.is_user(u))
}

impl StoreView {
    /// The store after one run of a leaderboard was taken in, and the record
    /// for the run, if it gives one.
    ///
    /// A run whose identifier a stored record carries gives that record and
    /// changes nothing. A run without players, or whose first player is not
    /// among the users of the leaderboard, gives no record. For any other,
    /// the player is resolved as a runner, and the record returned is one
    /// that the store does not hold yet.
    pub open spec fn taken_from_speedrun(self, players: Seq<SrcUserView>, run: SrcRunView) -> (
        StoreView,
        Result<Option<RecordView>, Error>,
    ) {
        if run.id.len() > 0 && self.record_by_src_id(run.id) is Some {
            (self, Ok(Some(self.records[self.record_by_src_id(run.id)->0])))
        } else {
            match run.player {
                None => (self, Ok(None)),
                Some(player) => match user_of(players, player) {
                    None => (self, Ok(None)),
                    Some(u) => match players[u].identity() {
                        Err(e) => (self, Err(e)),
                        Ok((user_id, name)) => {
                            let (after, runner) = self.resolved(Source::SpeedrunCom, user_id, name);
                            match runner {
                                Ok(runner) => (after, Ok(Some(run.observed(runner.id)))),
                                Err(e) => (after, Err(e)),
                            }
                        },
                    },
                },
            }
        }
    }

    /// The store after the runs of one leaderboard were taken in, one after
    /// the other, and the records for them. The first run that fails ends it.
    pub open spec fn taken_runs(self, players: Seq<SrcUserView>, runs: Seq<SrcRunView>) -> (
        StoreView,
        Result<Seq<RecordView>, Error>,
    )
        decreases runs.len(),
    {
        if runs.len() == 0 {
            (self, Ok(Seq::empty()))
        } else {
            let (before, earlier) = self.taken_runs(players, runs.drop_last());
            match earlier {
                Err(e) => (before, Err(e)),
                Ok(list) => {
                    let (after, taken) = before.taken_from_speedrun(players, runs.last());
                    match taken {
                        Ok(Some(record)) => (after, Ok(list.push(record))),
                        Ok(None) => (after, Ok(list)),
                        Err(e) => (after, Err(e)),
                    }
                },
            }
        }
    }

    /// The store after the runs of each leaderboard were taken in, one
    /// leaderboard after the other, and the records for them. The first run
    /// that fails ends it.
    pub open spec fn taken_leaderboards(self, boards: Seq<SrcLeaderboardView>) -> (
        StoreView,
        Result<Seq<RecordView>, Error>,
    )
        decreases boards.len(),
    {
        if boards.len() == 0 {
            (self, Ok(Seq::empty()))
        } else {
            let (before, earlier) = self.taken_leaderboards(boards.drop_last());
            match earlier {
                Err(e) => (before, Err(e)),
                Ok(list) => {
                    let (after, taken) = before.taken_runs(
                        boards.last().players,
                        boards.last().runs,
                    );
                    match taken {
                        Ok(more) => (after, Ok(list + more)),
                        Err(e) => (after, Err(e)),
                    }
                },
            }
        }
    }
}

/// Taking in a run keeps the rules of the store.
pub proof fn lemma_taken_from_speedrun_wf(
    store: StoreView,
    players: Seq<SrcUserView>,
    run: SrcRunView,
)
    requires
        store.wf(),
    ensures
        store.taken_from_speedrun(players, run).0.wf(),
{
    if let Some(player) = run.player {
        if let Some(u) = user_of(players, player) {
            if let Ok((user_id, name)) = players[u].identity() {
                lemma_resolved_wf(store, Source::SpeedrunCom, user_id, name);
            }
        }
    }
}

/// What taking in one run returns, as contracts see it.
pub open spec fn taken_view(outcome: Result<Option<Record>, Error>) -> Result<
    Option<RecordView>,
    Error,
> {
    match outcome {
        Ok(Some(record)) => Ok(Some(record@)),
        Ok(None) => Ok(None),
        Err(e) => Err(e),
    }
}

/// What taking in many runs returns, as contracts see it.
pub open spec fn taken_all_view(outcome: Result<Vec<Record>, Error>) -> Result<
    Seq<RecordView>,
    Error,
> {
    match outcome {
        Ok(records) => Ok(record_views(records@)),
        Err(e) => Err(e),
    }
}

fn option_is(candidate: &Option<String>, wanted: &Option<String>) -> (same: bool)
    ensures
        same == (text_of(*candidate) == Some(text_or_empty(text_of(*wanted)))),
{
    proof {
        reveal_strlit("");
    }
    let sought = match wanted {
        Some(text) => text.as_str(),
        None => "",
    };
    assert(sought@ =~= text_or_empty(text_of(*wanted)));
    match candidate {
        Some(text) => str_eq(text.as_str(), sought),
        None => false,
    }
}

fn find_user(players: &Vec<SrcUser>, player: &SrcPlayer) -> (row: Option<usize>)
    ensures
        row is Some ==> row->0 < players.len(),
        user_of(user_views(players@), player@) == match row {
            Some(u) => Some(u as int),
            None => None,
        },
{
    let by_id = str_eq(player.rel.as_str(), "user");
    let ghost users = user_views(players@);
    let mut u: usize = 0;
    while u < players.len()
        invariant
            u <= players.len(),
            users == user_views(players@),
            by_id == (player@.rel == "user"@),
            forall|j: int| 0 <= j < u ==> !player@.is_user(users[j]),
        decreases players.len() - u,
    {
        let found = if by_id {
            option_is(&players[u].id, &player.id)
        } else {
            option_is(&players[u].name, &player.name)
        };
        assert(users[u as int] == players[u as int]@);
        if found {
            proof {
                lemma_first_is_found(users, |x: SrcUserView| player@.is_user(x), u as int);
            }
            return Some(u);
        }
        u += 1;
    }
    proof {
        lemma_none_is_found(users, |x: SrcUserView| player@.is_user(x));
    }
    None
}

fn video_of(videos: &Option<SrcVideo>) -> (video: String)
    ensures
        video@ == first_video(*videos),
{
    match videos {
        Some(video) => match &video.links {
            Some(links) => if links.len() > 0 {
                cloned_or_empty(&links[0].uri)
            } else {
                String::new()
            },
            None => String::new(),
        },
        None => String::new(),
    }
}

impl Src {
    /// Takes in one run of a leaderboard whose users are `players`: returns
    /// the stored record that carries the run's identifier, or, after
    /// resolving the runner, a record for the run that is yet to be saved, or
    /// nothing where the run names no player of the leaderboard.
    pub fn record_from_run(&self, players: &Vec<SrcUser>, run: &SrcRun, store: &mut Store) -> (outcome:
        Result<Option<Record>, Error>)
        requires
            old(store).wf(),
        ensures
            final(store).wf(),
            final(store)@ == old(store)@.taken_from_speedrun(user_views(players@), run@).0,
            taken_view(outcome) == old(store)@.taken_from_speedrun(user_views(players@), run@).1,
    {
        proof {
            lemma_taken_from_speedrun_wf(store@, user_views(players@), run@);
        }
        if !run.id.as_str().is_empty() {
            let known = store.record_by_src_id(run.id.as_str());
            if known.is_some() {
                return match store.record_at(known) {
                    Ok(record) => Ok(Some(record)),
                    Err(e) => Err(e),
                };
            }
        }
        if run.players.len() == 0 {
            return Ok(None);
        }
        let user = match find_user(players, &run.players[0]) {
            Some(u) => &players[u],
            None => {
                return Ok(None);
            },
        };
        assert(user_views(players@)[user_of(user_views(players@), run@.player->0)->0] == user@);
        let empty = String::new();
        let (user_id, name) = if str_eq(user.rel.as_str(), "user") {
            match (&user.id, &user.names) {
                (Some(id), Some(names)) => (id, &names.international),
                _ => {
                    return Err(Error::InvalidData);
                },
            }
        } else {
            match &user.name {
                Some(name) => (&empty, name),
                None => {
                    return Err(Error::InvalidData);
                },
            }
        };
        let runner = match store.resolve_runner(
            Source::SpeedrunCom,
            user_id.as_str(),
            name.as_str(),
        ) {
            Ok(runner) => runner,
            Err(e) => {
                return Err(e);
            },
        };
        let (category, region) = match (&run.category, &run.values) {
            (Some(category_id), Some(values)) => self.classify(category_id, values),
            _ => (Category::Unknown, Region::NTSC),
        };
        Ok(
            Some(
                Record {
                    id: 0,
                    dt_id: 0,
                    src_id: run.id.clone(),
                    runner_id: runner.id,
                    category,
                    region,
                    realtime: match run.times.realtime_t {
                        Some(t) => t,
                        None => 0,
                    },
                    gametime: match run.times.ingame_t {
                        Some(t) => t,
                        None => 0,
                    },
                    comment: cloned_or_empty(&run.comment),
                    video: video_of(&run.videos),
                    active: 1,
                },
            ),
        )
    }
}

/// Once a run has failed, the runs after it change nothing.
proof fn lemma_failed_run_ends(
    store: StoreView,
    players: Seq<SrcUserView>,
    runs: Seq<SrcRunView>,
    k: int,
)
    requires
        0 <= k <= runs.len(),
        store.taken_runs(players, runs.take(k)).1 is Err,
    ensures
        store.taken_runs(players, runs) == store.taken_runs(players, runs.take(k)),
    decreases runs.len() - k,
{
    if k < runs.len() {
        assert(runs.take(k + 1).drop_last() =~= runs.take(k));
        lemma_failed_run_ends(store, players, runs, k + 1);
    } else {
        assert(runs.take(k) =~= runs);
    }
}

/// Once a leaderboard has failed, the leaderboards after it change nothing.
proof fn lemma_failed_leaderboard_ends(store: StoreView, boards: Seq<SrcLeaderboardView>, k: int)
    requires
        0 <= k <= boards.len(),
        store.taken_leaderboards(boards.take(k)).1 is Err,
    ensures
        store.taken_leaderboards(boards) == store.taken_leaderboards(boards.take(k)),
    decreases boards.len() - k,
{
    if k < boards.len() {
        assert(boards.take(k + 1).drop_last() =~= boards.take(k));
        lemma_failed_leaderboard_ends(store, boards, k + 1);
    } else {
        assert(boards.take(k) =~= boards);
    }
}

impl Src {
    /// Takes in every run of the given leaderboards, in order, and returns
    /// the records for them: stored records for the runs that the store
    /// knows, records yet to be saved for the others. Runners are resolved,
    /// and made where they are new, on the way. The first run that fails
    /// ends it; what was resolved until then stays.
    pub fn get_all_records(&self, leaderboards: &Vec<SrcLeaderboard>, store: &mut Store) -> (outcome:
        Result<Vec<Record>, Error>)
        requires
            old(store).wf(),
        ensures
            final(store).wf(),
            final(store)@ == old(store)@.taken_leaderboards(leaderboard_views(leaderboards@)).0,
            taken_all_view(outcome) == old(store)@.taken_leaderboards(
                leaderboard_views(leaderboards@),
            ).1,
    {
        let ghost boards = leaderboard_views(leaderboards@);
        let mut records: Vec<Record> = Vec::new();
        let mut b: usize = 0;
        proof {
            assert(boards.take(0) =~= Seq::<SrcLeaderboardView>::empty());
            assert(record_views(records@) =~= Seq::<RecordView>::empty());
        }
        while b < leaderboards.len()
            invariant
                b <= leaderboards.len(),
                boards == leaderboard_views(leaderboards@),
                store.wf(),
                old(store)@.taken_leaderboards(boards.take(b as int)) == (
                    store@,
                    Ok::<Seq<RecordView>, Error>(record_views(records@)),
                ),
            decreases leaderboards.len() - b,
        {
            let board = &leaderboards[b];
            let ghost entered = store@;
            let ghost listed = record_views(records@);
            let ghost players = user_views(board.players.data@);
            let ghost runs = board@.runs;
            let ghost mut more: Seq<RecordView> = Seq::empty();
            proof {
                assert(boards[b as int] == board@);
                assert(boards.take(b + 1).drop_last() =~= boards.take(b as int));
                assert(boards.take(b + 1).last() == board@);
                assert(runs.take(0) =~= Seq::<SrcRunView>::empty());
                assert(listed + more =~= listed);
            }
            let mut r: usize = 0;
            while r < board.runs.len()
                invariant
                    r <= board.runs.len(),
                    runs == board@.runs,
                    runs.len() == board.runs.len(),
                    players == user_views(board.players.data@),
                    store.wf(),
                    record_views(records@) == listed + more,
                    entered.taken_runs(players, runs.take(r as int)) == (
                        store@,
                        Ok::<Seq<RecordView>, Error>(more),
                    ),
                    boards == leaderboard_views(leaderboards@),
                    b < leaderboards.len(),
                    boards.take(b + 1).drop_last() == boards.take(b as int),
                    boards.take(b + 1).last() == board@,
                    old(store)@.taken_leaderboards(boards.take(b as int)) == (
                        entered,
                        Ok::<Seq<RecordView>, Error>(listed),
                    ),
                decreases board.runs.len() - r,
            {
                let run = &board.runs[r].run;
                let ghost shown = record_views(records@);
                proof {
                    assert(runs[r as int] == run@);
                    assert(runs.take(r + 1).drop_last() =~= runs.take(r as int));
                    assert(runs.take(r + 1).last() == run@);
                }
                match self.record_from_run(&board.players.data, run, store) {
                    Ok(Some(record)) => {
                        let ghost added = record@;
                        proof {
                            more = more.push(added);
                        }
                        records.push(record);
                        proof {
                            assert(record_views(records@) =~= shown.push(added));
                            assert(shown.push(added) =~= listed + more);
                        }
                    },
                    Ok(None) => {},
                    Err(e) => {
                        proof {
                            lemma_failed_run_ends(entered, players, runs, r + 1);
                            lemma_failed_leaderboard_ends(old(store)@, boards, b + 1);
                        }
                        return Err(e);
                    },
                }
                r += 1;
            }
            proof {
                assert(runs.take(r as int) =~= runs);
            }
            b += 1;
        }
        proof {
            assert(boards.take(b as int) =~= boards);
        }
        Ok(records)
    }
}

} // verus!

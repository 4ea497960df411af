//! The performance controller: the state machine that walks the playlist scene
//! by scene and bar by bar, keeps one player per instrument, pulls followers
//! along behind their masters, and takes in a new definition while it plays.

use vstd::prelude::*;
use crate::config::TICKS_PER_MEASURE;
use crate::midi::{DeviceManager, DeviceWrite, DeviceWriteView, device_writes_view};
use crate::models::{
    Controller, Performance, PerformanceView, SceneView, TrackView, last_named, lemma_last_named,
    lemma_last_named_step,
};
use crate::sequence_player::{PlayerView, SequencePlayer};

verus! {

// The players -------------------------------------------------------------------------------------

/// The view of each player of a list.
pub open spec fn players_view(v: Seq<SequencePlayer>) -> Seq<PlayerView> {
    v.map_values(|p: SequencePlayer| p@)
}

/// The name of each player's instrument, in order.
pub open spec fn player_names(players: Seq<PlayerView>) -> Seq<Seq<char>> {
    players.map_values(|p: PlayerView| p.instrument.name)
}

/// The place of the player of the instrument called `name`.
pub open spec fn find_player(players: Seq<PlayerView>, name: Seq<char>) -> Option<int> {
    last_named(player_names(players), name)
}

/// The players with `player` in the place of the one that had its instrument's
/// name, or behind all others where none had.
pub open spec fn put_player(players: Seq<PlayerView>, player: PlayerView) -> Seq<PlayerView> {
    match find_player(players, player.instrument.name) {
        Some(i) => players.update(i, player),
        None => players.push(player),
    }
}

/// Whether every player's instrument is valid and no two players have
/// instruments of the same name.
pub open spec fn players_valid(players: Seq<PlayerView>) -> bool {
    &&& forall|i: int| 0 <= i < players.len() ==> (#[trigger] players[i]).instrument.valid()
    &&& forall|i: int, j: int|
        0 <= i < j < players.len() ==> (#[trigger] players[i]).instrument.name
            != (#[trigger] players[j]).instrument.name
}

/// Whether every player can count `slack` more ticks and bars.
pub open spec fn players_have_room(players: Seq<PlayerView>, slack: nat) -> bool {
    forall|i: int|
        0 <= i < players.len() ==> (#[trigger] players[i]).clock_count + slack <= usize::MAX
            && players[i].bar_count + slack <= usize::MAX
}

// A scene begins ----------------------------------------------------------------------------------

/// The players after `track` got a fresh player, bound to its sequence for bar
/// `bar`. A track whose instrument the performance does not have changes
/// nothing.
pub open spec fn init_track(
    players: Seq<PlayerView>,
    perf: PerformanceView,
    track: TrackView,
    bar: nat,
) -> Seq<PlayerView> {
    match perf.find_instrument(track.instrument) {
        Some(inst) => put_player(players, PlayerView::fresh(inst, track.sequence_at(bar))),
        None => players,
    }
}

/// The players after each of `tracks`, in order, got a fresh player.
pub open spec fn init_tracks(
    players: Seq<PlayerView>,
    perf: PerformanceView,
    tracks: Seq<TrackView>,
    bar: nat,
) -> Seq<PlayerView>
    decreases tracks.len(),
{
    if tracks.len() == 0 {
        players
    } else {
        init_track(init_tracks(players, perf, tracks.drop_last(), bar), perf, tracks.last(), bar)
    }
}

// A bar begins ------------------------------------------------------------------------------------

/// The players after `track` began bar `bar`: a track that follows no other has
/// its player, if it has one, put back to zero and bound to its sequence for
/// that bar. A follower is left alone.
pub open spec fn restart_track(players: Seq<PlayerView>, track: TrackView, bar: nat) -> Seq<
    PlayerView,
> {
    match find_player(players, track.instrument) {
        Some(i) => if track.follow is None {
            players.update(
                i,
                PlayerView { seq_name: track.sequence_at(bar), ..players[i].reset_next() },
            )
        } else {
            players
        },
        None => players,
    }
}

/// The players after each of `tracks`, in order, began bar `bar`.
pub open spec fn restart_tracks(players: Seq<PlayerView>, tracks: Seq<TrackView>, bar: nat) -> Seq<
    PlayerView,
>
    decreases tracks.len(),
{
    if tracks.len() == 0 {
        players
    } else {
        restart_track(restart_tracks(players, tracks.drop_last(), bar), tracks.last(), bar)
    }
}

// A new definition arrives ------------------------------------------------------------------------

/// The players after `track` took in a new definition. Its player, if it has
/// one, gets the instrument as now defined and is bound anew, by the
/// controller's bar for a track that follows no other and by the player's own
/// bar for a follower; cursor, ticks, bars and sounding notes stay. A track
/// without a player gets a fresh one. A track whose instrument the performance
/// does not have changes nothing.
pub open spec fn merge_track(
    players: Seq<PlayerView>,
    perf: PerformanceView,
    track: TrackView,
    bar: nat,
) -> Seq<PlayerView> {
    match perf.find_instrument(track.instrument) {
        Some(inst) => match find_player(players, track.instrument) {
            Some(i) => players.update(
                i,
                PlayerView {
                    instrument: inst,
                    seq_name: track.sequence_at(
                        if track.follow is None {
                            bar
                        } else {
                            players[i].bar_count
                        },
                    ),
                    ..players[i]
                },
            ),
            None => players.push(PlayerView::fresh(inst, track.sequence_at(bar))),
        },
        None => players,
    }
}

/// The players after each of `tracks`, in order, took in a new definition.
pub open spec fn merge_tracks(
    players: Seq<PlayerView>,
    perf: PerformanceView,
    tracks: Seq<TrackView>,
    bar: nat,
) -> Seq<PlayerView>
    decreases tracks.len(),
{
    if tracks.len() == 0 {
        players
    } else {
        merge_track(merge_tracks(players, perf, tracks.drop_last(), bar), perf, tracks.last(), bar)
    }
}

// A tick ------------------------------------------------------------------------------------------

/// The state of one tick as it goes from track to track: the players, what was
/// queued for output, and for each track clocked so far that follows no other,
/// its instrument's name and whether it struck a note.
pub struct TickState {
    pub players: Seq<PlayerView>,
    pub output: Seq<DeviceWriteView>,
    pub played: Seq<(Seq<char>, bool)>,
}

/// Whether the instrument called `name` struck a note in this tick, as last
/// recorded.
pub open spec fn was_played(played: Seq<(Seq<char>, bool)>, name: Seq<char>) -> bool {
    match last_named(played.map_values(|e: (Seq<char>, bool)| e.0), name) {
        Some(i) => played[i].1,
        None => false,
    }
}

/// The first pass over one track. A track that follows no other has its player,
/// if it has one, clocked, and whether it struck a note is recorded under the
/// instrument's name. A follower is passed over.
pub open spec fn clock_master(st: TickState, track: TrackView) -> TickState {
    match find_player(st.players, track.instrument) {
        Some(i) => if track.follow is None {
            TickState {
                players: st.players.update(i, st.players[i].clock_next()),
                output: st.output + st.players[i].clock_writes(),
                played: st.played.push(
                    (track.instrument, st.players[i].clock_result().note_was_played),
                ),
            }
        } else {
            st
        },
        None => st,
    }
}

/// The first pass over `tracks`, in order.
pub open spec fn clock_masters(st: TickState, tracks: Seq<TrackView>) -> TickState
    decreases tracks.len(),
{
    if tracks.len() == 0 {
        st
    } else {
        clock_master(clock_masters(st, tracks.drop_last()), tracks.last())
    }
}

/// A follower's player as it is clocked: where its master struck a note in this
/// tick, silenced, started on its next bar and bound to its sequence for that
/// bar, by its own count of bars; else as it was.
pub open spec fn follower_before_clock(player: PlayerView, track: TrackView, pulled: bool) -> PlayerView {
    if pulled {
        PlayerView {
            seq_name: track.sequence_at(player.bar_count + 1),
            ..player.next_bar_next()
        }
    } else {
        player
    }
}

/// The second pass over one track. A follower's player, if it has one, is
/// pulled on to its next bar where its master struck a note in this tick, and is
/// then clocked. A track that follows no other is passed over.
pub open spec fn clock_follower(st: TickState, track: TrackView) -> TickState {
    match find_player(st.players, track.instrument) {
        Some(i) => match track.follow {
            Some(master) => {
                let pulled = was_played(st.played, master);
                let player = follower_before_clock(st.players[i], track, pulled);
                TickState {
                    players: st.players.update(i, player.clock_next()),
                    output: st.output + (if pulled {
                        st.players[i].flush_writes()
                    } else {
                        Seq::empty()
                    }) + player.clock_writes(),
                    played: st.played,
                }
            },
            None => st,
        },
        None => st,
    }
}

/// The second pass over `tracks`, in order.
pub open spec fn clock_followers(st: TickState, tracks: Seq<TrackView>) -> TickState
    decreases tracks.len(),
{
    if tracks.len() == 0 {
        st
    } else {
        clock_follower(clock_followers(st, tracks.drop_last()), tracks.last())
    }
}

/// What silencing each of `players`, in order, queues.
pub open spec fn flush_writes_of(players: Seq<PlayerView>) -> Seq<DeviceWriteView>
    decreases players.len(),
{
    if players.len() == 0 {
        Seq::empty()
    } else {
        flush_writes_of(players.drop_last()) + players.last().flush_writes()
    }
}

// The controller's state --------------------------------------------------------------------------

/// The controller as the contracts see it: the place in the playlist, the bar
/// within the scene, the ticks since the bar began, the players, the
/// definition, and the output queued and not yet taken.
pub struct PerformanceState {
    pub scene_index: nat,
    pub clock_count: nat,
    pub bar_count: nat,
    pub players: Seq<PlayerView>,
    pub perf: PerformanceView,
    pub output: Seq<DeviceWriteView>,
}

impl PerformanceState {
    /// The definition is valid, so is every player's instrument, and each
    /// instrument has one player at most.
    pub open spec fn wf(self) -> bool {
        &&& self.perf.valid()
        &&& players_valid(self.players)
    }

    /// The controller's own counters can count one more bar and one more scene.
    pub open spec fn bar_room(self) -> bool {
        &&& self.scene_index < usize::MAX
        &&& self.bar_count < usize::MAX
    }

    /// No counter is so near the machine's limit that one more bar, or a tick
    /// and a bar for every track of the scene in each of the two passes, could
    /// pass it.
    pub open spec fn headroom(self) -> bool {
        &&& self.bar_room()
        &&& players_have_room(self.players, 2 * self.tracks().len())
    }

    /// The name of the scene that plays: the playlist, taken in a cycle.
    pub open spec fn scene_name(self) -> Seq<char>
        recommends
            self.perf.playlist.len() > 0,
    {
        self.perf.playlist[(self.scene_index % self.perf.playlist.len()) as int]
    }

    /// The scene that plays, where the performance has one of that name.
    pub open spec fn scene(self) -> Option<SceneView> {
        self.perf.find_scene(self.scene_name())
    }

    /// The tracks of the scene that plays; none where the scene is not found.
    pub open spec fn tracks(self) -> Seq<TrackView> {
        match self.scene() {
            Some(s) => s.tracks,
            None => Seq::empty(),
        }
    }

    /// A controller at the start of `perf`, with a fresh player for each track of
    /// the first scene.
    pub open spec fn initial(perf: PerformanceView) -> PerformanceState {
        (PerformanceState {
            scene_index: 0,
            clock_count: 0,
            bar_count: 0,
            players: Seq::empty(),
            perf,
            output: Seq::empty(),
        }).init_scene_next()
    }

    /// The state after every track of the scene that plays got a fresh player.
    pub open spec fn init_scene_next(self) -> PerformanceState {
        PerformanceState {
            players: init_tracks(self.players, self.perf, self.tracks(), self.bar_count),
            ..self
        }
    }

    /// Whether the bar that ends is the scene's last: the first track's `play`
    /// list has been gone through.
    pub open spec fn scene_complete(self) -> bool {
        match self.scene() {
            Some(s) => self.bar_count + 1 >= s.tracks[0].play.len(),
            None => false,
        }
    }

    /// The state as the next bar is entered, before the players are set to it:
    /// one bar on in the same scene, or, where the scene is complete, at the
    /// first bar of the next scene with fresh players.
    pub open spec fn bar_turned(self) -> PerformanceState {
        if self.scene_complete() {
            (PerformanceState {
                scene_index: self.scene_index + 1,
                bar_count: 0,
                ..self
            }).init_scene_next()
        } else {
            PerformanceState { bar_count: self.bar_count + 1, ..self }
        }
    }

    /// The state at the start of the next bar.
    pub open spec fn next_bar_next(self) -> PerformanceState {
        let turned = self.bar_turned();
        PerformanceState {
            players: restart_tracks(turned.players, turned.tracks(), turned.bar_count),
            ..turned
        }
    }

    /// The tick as it starts: the players as they are, the output queued so far,
    /// nothing played yet.
    pub open spec fn tick_start(self) -> TickState {
        TickState { players: self.players, output: self.output, played: Seq::empty() }
    }

    /// The tick when both passes are done: first every track that follows no
    /// other, then every follower.
    pub open spec fn tick_end(self) -> TickState {
        clock_followers(clock_masters(self.tick_start(), self.tracks()), self.tracks())
    }

    /// The state at a bar boundary: at the start of the next bar, with no tick
    /// counted yet.
    pub open spec fn bar_boundary_next(self) -> PerformanceState {
        PerformanceState { clock_count: 0, ..self.next_bar_next() }
    }

    /// The state one tick later. A tick that finds a whole measure counted is a
    /// bar boundary; any other tick clocks the players of the scene and counts
    /// one more.
    pub open spec fn clock_next(self) -> PerformanceState {
        if self.clock_count >= TICKS_PER_MEASURE {
            self.bar_boundary_next()
        } else {
            PerformanceState {
                clock_count: self.clock_count + 1,
                players: self.tick_end().players,
                output: self.tick_end().output,
                ..self
            }
        }
    }

    /// The state after a reset: every player silenced, all counters at zero, and
    /// a fresh player for each track of the first scene.
    pub open spec fn reset_next(self) -> PerformanceState {
        (PerformanceState {
            scene_index: 0,
            clock_count: 0,
            bar_count: 0,
            players: self.players.map_values(|p: PlayerView| p.flushed()),
            output: self.output + flush_writes_of(self.players),
            ..self
        }).init_scene_next()
    }

    /// Whether the instrument called `master` struck a note in this tick, as the
    /// first pass records it.
    pub open spec fn master_struck(self, master: Seq<char>) -> bool {
        was_played(clock_masters(self.tick_start(), self.tracks()).played, master)
    }

    /// The state `n` bars on.
    pub open spec fn bars_next(self, n: nat) -> PerformanceState
        decreases n,
    {
        if n == 0 {
            self
        } else {
            self.bars_next((n - 1) as nat).next_bar_next()
        }
    }

    /// The state after one turn of the controller's loop, before its bar
    /// boundary and its tick: a new definition, where one came and is valid, is
    /// taken in; then the performance is reset, where that was asked for.
    pub open spec fn informed(self, update: Option<PerformanceView>, reset: bool) -> PerformanceState {
        let updated = match update {
            Some(def) => self.update_def_next(def),
            None => self,
        };
        if reset {
            updated.reset_next()
        } else {
            updated
        }
    }

    /// The state after the bar boundary of one turn, where one came and the
    /// counters have room for it.
    pub open spec fn bounded(self, bar: bool) -> PerformanceState {
        if bar && self.bar_room() {
            self.bar_boundary_next()
        } else {
            self
        }
    }

    /// The state after the tick of one turn, where one came and the counters
    /// have room for it.
    pub open spec fn ticked(self, tick: bool) -> PerformanceState {
        if tick && self.headroom() {
            self.clock_next()
        } else {
            self
        }
    }

    /// The state after one turn of the controller's loop: the news are taken in,
    /// then the bar boundary, then the tick.
    pub open spec fn poll_next(
        self,
        update: Option<PerformanceView>,
        reset: bool,
        bar: bool,
        tick: bool,
    ) -> PerformanceState {
        self.informed(update, reset).bounded(bar).ticked(tick)
    }

    /// The state after `def` took the place of the definition: every track of
    /// the scene that plays, as `def` has it, took in the new definition.
    pub open spec fn taken_in(self, def: PerformanceView) -> PerformanceState {
        let swapped = PerformanceState { perf: def, ..self };
        PerformanceState {
            players: merge_tracks(self.players, def, swapped.tracks(), self.bar_count),
            ..swapped
        }
    }

    /// The state after `def` was offered as the new definition: a valid one is
    /// taken in; an invalid one is turned away, and everything stays as it was.
    pub open spec fn update_def_next(self, def: PerformanceView) -> PerformanceState {
        if def.valid() {
            self.taken_in(def)
        } else {
            self
        }
    }
}

// Fold steps --------------------------------------------------------------------------------------

proof fn lemma_init_tracks_step(
    players: Seq<PlayerView>,
    perf: PerformanceView,
    tracks: Seq<TrackView>,
    t: int,
    bar: nat,
)
    requires
        0 <= t < tracks.len(),
    ensures
        init_tracks(players, perf, tracks.take(t + 1), bar) == init_track(
            init_tracks(players, perf, tracks.take(t), bar),
            perf,
            tracks[t],
            bar,
        ),
{
    assert(tracks.take(t + 1).drop_last() =~= tracks.take(t));
}

proof fn lemma_restart_tracks_step(
    players: Seq<PlayerView>,
    tracks: Seq<TrackView>,
    t: int,
    bar: nat,
)
    requires
        0 <= t < tracks.len(),
    ensures
        restart_tracks(players, tracks.take(t + 1), bar) == restart_track(
            restart_tracks(players, tracks.take(t), bar),
            tracks[t],
            bar,
        ),
{
    assert(tracks.take(t + 1).drop_last() =~= tracks.take(t));
}

proof fn lemma_merge_tracks_step(
    players: Seq<PlayerView>,
    perf: PerformanceView,
    tracks: Seq<TrackView>,
    t: int,
    bar: nat,
)
    requires
        0 <= t < tracks.len(),
    ensures
        merge_tracks(players, perf, tracks.take(t + 1), bar) == merge_track(
            merge_tracks(players, perf, tracks.take(t), bar),
            perf,
            tracks[t],
            bar,
        ),
{
    assert(tracks.take(t + 1).drop_last() =~= tracks.take(t));
}

proof fn lemma_clock_masters_step(st: TickState, tracks: Seq<TrackView>, t: int)
    requires
        0 <= t < tracks.len(),
    ensures
        clock_masters(st, tracks.take(t + 1)) == clock_master(
            clock_masters(st, tracks.take(t)),
            tracks[t],
        ),
{
    assert(tracks.take(t + 1).drop_last() =~= tracks.take(t));
}

proof fn lemma_clock_followers_step(st: TickState, tracks: Seq<TrackView>, t: int)
    requires
        0 <= t < tracks.len(),
    ensures
        clock_followers(st, tracks.take(t + 1)) == clock_follower(
            clock_followers(st, tracks.take(t)),
            tracks[t],
        ),
{
    assert(tracks.take(t + 1).drop_last() =~= tracks.take(t));
}

proof fn lemma_flush_writes_step(players: Seq<PlayerView>, i: int)
    requires
        0 <= i < players.len(),
    ensures
        flush_writes_of(players.take(i + 1)) == flush_writes_of(players.take(i))
            + players[i].flush_writes(),
{
    assert(players.take(i + 1).drop_last() =~= players.take(i));
}

/// A player put among valid players leaves them valid, where it is valid itself.
proof fn lemma_put_player_valid(players: Seq<PlayerView>, player: PlayerView)
    requires
        players_valid(players),
        player.instrument.valid(),
    ensures
        players_valid(put_player(players, player)),
{
    let names = player_names(players);
    let name = player.instrument.name;
    let after = put_player(players, player);
    lemma_last_named(names, name);
    assert forall|a: int, b: int| 0 <= a < b < after.len() implies (#[trigger] after[a]).instrument.name
        != (#[trigger] after[b]).instrument.name by {
        if a < players.len() {
            assert(names[a] == players[a].instrument.name);
        }
        if b < players.len() {
            assert(names[b] == players[b].instrument.name);
        }
    }
}

/// The instrument of a track of a scene that can be played, where the
/// performance has it, is valid and has the name the track gives.
proof fn lemma_track_instrument(perf: PerformanceView, scene: SceneView, t: int)
    requires
        perf.scene_playable(scene),
        0 <= t < scene.tracks.len(),
    ensures
        scene.tracks[t].valid(),
        match perf.find_instrument(scene.tracks[t].instrument) {
            Some(inst) => inst.valid() && inst.name == scene.tracks[t].instrument,
            None => true,
        },
{
    assert(perf.track_playable(scene.tracks[t]));
    lemma_last_named(perf.instrument_names(), scene.tracks[t].instrument);
}

/// The scene that plays in a valid performance can be played.
proof fn lemma_active_scene(s: PerformanceState)
    requires
        s.perf.valid(),
    ensures
        match s.scene() {
            Some(scene) => s.perf.scene_playable(scene) && scene.valid() && scene.tracks.len() > 0
                && scene.tracks[0].valid(),
            None => true,
        },
{
    let at = (s.scene_index % s.perf.playlist.len()) as int;
    assert(s.perf.entry_playable(s.perf.playlist[at]));
    lemma_last_named(s.perf.scene_names(), s.scene_name());
}

// The players, in the machine ---------------------------------------------------------------------

/// The place of the player of the instrument called `name`.
fn player_index(players: &Vec<SequencePlayer>, name: &String) -> (r: Option<usize>)
    ensures
        match r {
            Some(i) => find_player(players_view(players@), name@) == Some(i as int) && i
                < players.len(),
            None => find_player(players_view(players@), name@) is None,
        },
{
    let ghost names = player_names(players_view(players@));
    let mut result: Option<usize> = None;
    let mut i: usize = 0;
    while i < players.len()
        invariant
            i <= players.len(),
            names == player_names(players_view(players@)),
            names.len() == players.len(),
            match result {
                Some(k) => last_named(names.take(i as int), name@) == Some(k as int) && k < i,
                None => last_named(names.take(i as int), name@) is None,
            },
        decreases players.len() - i,
    {
        proof {
            lemma_last_named_step(names, i as int, name@);
        }
        if players[i].instrument().name == *name {
            result = Some(i);
        }
        i += 1;
    }
    assert(names.take(i as int) =~= names);
    result
}

/// Puts `player` in the place of the one that has its instrument's name, or
/// behind all others where none has.
fn put_player_in(players: &mut Vec<SequencePlayer>, player: SequencePlayer)
    ensures
        players_view(final(players)@) == put_player(players_view(old(players)@), player@),
{
    let found = player_index(players, &player.instrument().name);
    match found {
        Some(i) => {
            players[i] = player;
            assert(players_view(players@) =~= put_player(players_view(old(players)@), player@));
        },
        None => {
            players.push(player);
            assert(players_view(players@) =~= put_player(players_view(old(players)@), player@));
        },
    }
}

/// The record of one tick's first pass, as the contracts see it. It is a map
/// from instrument names to what was recorded last under the name, kept as a
/// list of entries in the order they were made.
pub open spec fn played_view(v: Seq<(String, bool)>) -> Seq<(Seq<char>, bool)> {
    v.map_values(|e: (String, bool)| (e.0@, e.1))
}

/// Whether the instrument called `name` struck a note in this tick, as last
/// recorded.
fn played_lookup(played: &Vec<(String, bool)>, name: &String) -> (r: bool)
    ensures
        r == was_played(played_view(played@), name@),
{
    let ghost names = played_view(played@).map_values(|e: (Seq<char>, bool)| e.0);
    let mut result: Option<usize> = None;
    let mut i: usize = 0;
    while i < played.len()
        invariant
            i <= played.len(),
            names == played_view(played@).map_values(|e: (Seq<char>, bool)| e.0),
            names.len() == played.len(),
            match result {
                Some(k) => last_named(names.take(i as int), name@) == Some(k as int) && k < i,
                None => last_named(names.take(i as int), name@) is None,
            },
        decreases played.len() - i,
    {
        proof {
            lemma_last_named_step(names, i as int, name@);
        }
        if played[i].0 == *name {
            result = Some(i);
        }
        i += 1;
    }
    assert(names.take(i as int) =~= names);
    match result {
        Some(k) => played[k].1,
        None => false,
    }
}

// Performance Controller --------------------------------------------------------------------------

/// The running performance: its place in the playlist, the definition, one
/// player for each instrument that a scene has bound so far, found by the
/// instrument's name, and the queue of what is to be sent.
///
/// The players are a map from instrument names to players, kept as a list in
/// which no name occurs twice: the verifier's model of hash maps covers keys of
/// the integer types, and a name is a `String`.
pub struct PerformanceController {
    scene_index: usize,
    clock_count: usize,
    bar_count: usize,
    players: Vec<SequencePlayer>,
    perf: Performance,
    device_manager: DeviceManager,
}

impl View for PerformanceController {
    type V = PerformanceState;

    closed spec fn view(&self) -> PerformanceState {
        PerformanceState {
            scene_index: self.scene_index as nat,
            clock_count: self.clock_count as nat,
            bar_count: self.bar_count as nat,
            players: players_view(self.players@),
            perf: self.perf@,
            output: self.device_manager@,
        }
    }
}

impl PerformanceController {
    /// A controller at the start of `perf`, with a fresh player for each track of
    /// the first scene.
    pub fn new(perf: Performance) -> (r: PerformanceController)
        requires
            perf@.valid(),
        ensures
            r@ == PerformanceState::initial(perf@),
            r@.wf(),
    {
        let mut r = PerformanceController {
            scene_index: 0,
            clock_count: 0,
            bar_count: 0,
            players: Vec::new(),
            perf,
            device_manager: DeviceManager::new(),
        };
        assert(r@.players =~= Seq::empty());
        r.init_scene();
        r
    }

    /// Gives every track of the scene that plays a fresh player, bound to the
    /// track's sequence for the bar that plays. A track whose instrument the
    /// performance does not have is passed over.
    pub fn init_scene(&mut self)
        requires
            old(self)@.wf(),
        ensures
            final(self)@ == old(self)@.init_scene_next(),
            final(self)@.wf(),
    {
        let ghost pre = self@;
        let playlist_index = self.scene_index % self.perf.playlist.len();
        match self.perf.scene_index(&self.perf.playlist[playlist_index]) {
            Some(found) => {
                let ghost tracks = pre.tracks();
                proof {
                    lemma_active_scene(pre);
                }
                let n = self.perf.scenes[found].tracks.len();
                let mut t: usize = 0;
                while t < n
                    invariant
                        t <= n,
                        found < self.perf.scenes.len(),
                        n == self.perf.scenes[found as int].tracks.len(),
                        tracks == self.perf.scenes[found as int]@.tracks,
                        pre.scene() == Some(self.perf.scenes[found as int]@),
                        pre.perf.scene_playable(pre.scene()->0),
                        pre.wf(),
                        self@ == (PerformanceState {
                            players: init_tracks(
                                pre.players,
                                pre.perf,
                                tracks.take(t as int),
                                pre.bar_count,
                            ),
                            ..pre
                        }),
                        players_valid(self@.players),
                    decreases n - t,
                {
                    let track = &self.perf.scenes[found].tracks[t];
                    proof {
                        lemma_init_tracks_step(
                            pre.players,
                            pre.perf,
                            tracks,
                            t as int,
                            pre.bar_count,
                        );
                        lemma_track_instrument(pre.perf, pre.scene()->0, t as int);
                        assert(tracks[t as int] == track@);
                        assert(track@.valid());
                    }
                    match self.perf.instrument_index(&track.instrument) {
                        Some(at) => {
                            let inst = self.perf.instruments[at].clone();
                            let seq_name = track.play[self.bar_count % track.play.len()].clone();
                            let ghost fresh = PlayerView::fresh(inst@, seq_name@);
                            proof {
                                lemma_put_player_valid(self@.players, fresh);
                            }
                            put_player_in(&mut self.players, SequencePlayer::new(inst, seq_name));
                        },
                        None => {},
                    }
                    t += 1;
                }
                assert(tracks.take(t as int) =~= tracks);
            },
            None => {},
        }
    }
}

impl PerformanceController {
    /// The place in the playlist, counted without wrapping.
    pub fn scene_index(&self) -> (r: usize)
        ensures
            r == self@.scene_index,
    {
        self.scene_index
    }

    /// The bar within the scene that plays.
    pub fn bar_count(&self) -> (r: usize)
        ensures
            r == self@.bar_count,
    {
        self.bar_count
    }

    /// The ticks since the bar began.
    pub fn clock_count(&self) -> (r: usize)
        ensures
            r == self@.clock_count,
    {
        self.clock_count
    }

    /// The definition that plays.
    pub fn performance(&self) -> (r: &Performance)
        ensures
            r@ == self@.perf,
    {
        &self.perf
    }

    /// The player of the instrument called `name`, if it has one.
    pub fn player(&self, name: &String) -> (r: Option<&SequencePlayer>)
        ensures
            match find_player(self@.players, name@) {
                Some(i) => r is Some && r->0@ == self@.players[i],
                None => r is None,
            },
    {
        proof {
            lemma_last_named(player_names(self@.players), name@);
        }
        match player_index(&self.players, name) {
            Some(i) => Some(&self.players[i]),
            None => None,
        }
    }

    /// Takes out the output queued so far, oldest first.
    pub fn take_output(&mut self) -> (r: Vec<DeviceWrite>)
        ensures
            device_writes_view(r@) == old(self)@.output,
            final(self)@ == (PerformanceState { output: Seq::empty(), ..old(self)@ }),
    {
        self.device_manager.take()
    }

    /// Starts the next bar. Where the first track of the scene has gone through
    /// its `play` list, the playlist moves on by one scene, the bar count starts
    /// over and the scene's tracks get fresh players. Then every track that
    /// follows no other has its player put back to zero and bound to its
    /// sequence for the bar.
    pub fn next_bar(&mut self)
        requires
            old(self)@.wf(),
            old(self)@.bar_room(),
        ensures
            final(self)@ == old(self)@.next_bar_next(),
            final(self)@.wf(),
    {
        let ghost pre = self@;
        self.bar_count += 1;
        let playlist_index = self.scene_index % self.perf.playlist.len();
        let next_scene = match self.perf.scene_index(&self.perf.playlist[playlist_index]) {
            Some(found) => {
                proof {
                    lemma_active_scene(pre);
                    assert(pre.scene() == Some(self.perf.scenes[found as int]@));
                    assert(pre.scene()->0.tracks[0] == self.perf.scenes[found as int].tracks[0]@);
                }
                self.bar_count >= self.perf.scenes[found].tracks[0].play.len()
            },
            None => false,
        };
        assert(next_scene == pre.scene_complete());
        if next_scene {
            self.scene_index += 1;
            self.bar_count = 0;
            self.init_scene();
        }
        assert(self@ == pre.bar_turned());
        let ghost turned = self@;
        let playlist_index = self.scene_index % self.perf.playlist.len();
        match self.perf.scene_index(&self.perf.playlist[playlist_index]) {
            Some(found) => {
                let ghost tracks = turned.tracks();
                proof {
                    lemma_active_scene(turned);
                }
                let n = self.perf.scenes[found].tracks.len();
                let mut t: usize = 0;
                while t < n
                    invariant
                        t <= n,
                        found < self.perf.scenes.len(),
                        n == self.perf.scenes[found as int].tracks.len(),
                        tracks == self.perf.scenes[found as int]@.tracks,
                        turned.scene() == Some(self.perf.scenes[found as int]@),
                        turned.perf.scene_playable(turned.scene()->0),
                        turned.wf(),
                        self@ == (PerformanceState {
                            players: restart_tracks(
                                turned.players,
                                tracks.take(t as int),
                                turned.bar_count,
                            ),
                            ..turned
                        }),
                        players_valid(self@.players),
                    decreases n - t,
                {
                    let track = &self.perf.scenes[found].tracks[t];
                    proof {
                        lemma_restart_tracks_step(
                            turned.players,
                            tracks,
                            t as int,
                            turned.bar_count,
                        );
                        assert(tracks[t as int] == track@);
                        assert(track@.valid());
                    }
                    if track.follow.is_none() {
                        match player_index(&self.players, &track.instrument) {
                            Some(i) => {
                                let ghost before = players_view(self.players@);
                                let seq_name = track.play[self.bar_count % track.play.len()].clone();
                                self.players[i].reset();
                                self.players[i].bind(seq_name);
                                assert(players_view(self.players@) =~= before.update(
                                    i as int,
                                    PlayerView {
                                        seq_name: track@.sequence_at(turned.bar_count),
                                        ..before[i as int].reset_next()
                                    },
                                ));
                            },
                            None => {},
                        }
                    }
                    t += 1;
                }
                assert(tracks.take(t as int) =~= tracks);
            },
            None => {},
        }
    }
}

impl PerformanceController {
    /// Puts `def` in the place of the definition while the performance plays.
    /// In the scene that plays, as `def` has it, every track's player gets its
    /// instrument as now defined and is bound anew, by the controller's bar for
    /// a track that follows no other and by the player's own bar for a follower.
    /// Cursors, counters and sounding notes stay as they are. A track without
    /// a player gets a fresh one. A definition that is not valid is turned away:
    /// the one that plays stays, and nothing changes.
    pub fn update_def(&mut self, def: Performance)
        requires
            old(self)@.wf(),
        ensures
            final(self)@ == old(self)@.update_def_next(def@),
            final(self)@.wf(),
    {
        if !def.is_valid() {
            return;
        }
        self.perf = def;
        let ghost swapped = self@;
        let playlist_index = self.scene_index % self.perf.playlist.len();
        match self.perf.scene_index(&self.perf.playlist[playlist_index]) {
            Some(found) => {
                let ghost tracks = swapped.tracks();
                proof {
                    lemma_active_scene(swapped);
                }
                let n = self.perf.scenes[found].tracks.len();
                let mut t: usize = 0;
                while t < n
                    invariant
                        t <= n,
                        found < self.perf.scenes.len(),
                        n == self.perf.scenes[found as int].tracks.len(),
                        tracks == self.perf.scenes[found as int]@.tracks,
                        swapped.scene() == Some(self.perf.scenes[found as int]@),
                        swapped.perf.scene_playable(swapped.scene()->0),
                        swapped.wf(),
                        self@ == (PerformanceState {
                            players: merge_tracks(
                                swapped.players,
                                swapped.perf,
                                tracks.take(t as int),
                                swapped.bar_count,
                            ),
                            ..swapped
                        }),
                        players_valid(self@.players),
                    decreases n - t,
                {
                    let track = &self.perf.scenes[found].tracks[t];
                    proof {
                        lemma_merge_tracks_step(
                            swapped.players,
                            swapped.perf,
                            tracks,
                            t as int,
                            swapped.bar_count,
                        );
                        lemma_track_instrument(swapped.perf, swapped.scene()->0, t as int);
                        lemma_last_named(player_names(self@.players), track@.instrument);
                        assert(tracks[t as int] == track@);
                        assert(track@.valid());
                    }
                    match self.perf.instrument_index(&track.instrument) {
                        Some(at) => {
                            let inst = self.perf.instruments[at].clone();
                            let ghost before = players_view(self.players@);
                            proof {
                                assert forall|a: int| 0 <= a < before.len() implies player_names(
                                    before,
                                )[a] == (#[trigger] before[a]).instrument.name by {}
                            }
                            match player_index(&self.players, &track.instrument) {
                                Some(i) => {
                                    let bar = if track.follow.is_none() {
                                        self.bar_count
                                    } else {
                                        self.players[i].bar_count()
                                    };
                                    let seq_name = track.play[bar % track.play.len()].clone();
                                    self.players[i].set_instrument(inst);
                                    self.players[i].bind(seq_name);
                                    assert(players_view(self.players@) =~= merge_track(
                                        before,
                                        swapped.perf,
                                        track@,
                                        swapped.bar_count,
                                    ));
                                },
                                None => {
                                    let seq_name = track.play[self.bar_count
                                        % track.play.len()].clone();
                                    self.players.push(SequencePlayer::new(inst, seq_name));
                                    assert(players_view(self.players@) =~= merge_track(
                                        before,
                                        swapped.perf,
                                        track@,
                                        swapped.bar_count,
                                    ));
                                },
                            }
                        },
                        None => {},
                    }
                    t += 1;
                }
                assert(tracks.take(t as int) =~= tracks);
            },
            None => {},
        }
    }

    /// Starts the performance over: silences every player, puts all counters
    /// back to zero and gives the tracks of the first scene fresh players.
    pub fn reset(&mut self)
        requires
            old(self)@.wf(),
        ensures
            final(self)@ == old(self)@.reset_next(),
            final(self)@.wf(),
    {
        let ghost pre = self@;
        let n = self.players.len();
        let mut i: usize = 0;
        assert(self.device_manager@ =~= pre.output + flush_writes_of(pre.players.take(0)));
        while i < n
            invariant
                i <= n,
                n == pre.players.len(),
                pre.wf(),
                self@.perf == pre.perf,
                self@.players.len() == n,
                forall|j: int| 0 <= j < i ==> #[trigger] self@.players[j] == pre.players[j].flushed(),
                forall|j: int| i <= j < n ==> #[trigger] self@.players[j] == pre.players[j],
                self@.output == pre.output + flush_writes_of(pre.players.take(i as int)),
            decreases n - i,
        {
            let ghost before = self@.players;
            proof {
                lemma_flush_writes_step(pre.players, i as int);
                assert(pre.players[i as int].instrument.valid());
                assert(before[i as int] == pre.players[i as int]);
                assert(self.players[i as int]@ == before[i as int]);
            }
            self.players[i].note_off_all(&mut self.device_manager);
            proof {
                assert(self@.players =~= before.update(i as int, before[i as int].flushed()));
                assert forall|j: int| 0 <= j < i + 1 implies #[trigger] self@.players[j]
                    == pre.players[j].flushed() by {
                    if j < i {
                        assert(before[j] == pre.players[j].flushed());
                    }
                }
                assert forall|j: int| i + 1 <= j < n implies #[trigger] self@.players[j]
                    == pre.players[j] by {
                    assert(before[j] == pre.players[j]);
                }
            }
            i += 1;
        }
        self.clock_count = 0;
        self.scene_index = 0;
        self.bar_count = 0;
        proof {
            assert(pre.players.take(n as int) =~= pre.players);
            assert(self@.players =~= pre.players.map_values(|p: PlayerView| p.flushed()));
            assert forall|j: int| 0 <= j < self@.players.len() implies (
            #[trigger] self@.players[j]).instrument.valid() by {
                assert(pre.players[j].instrument.valid());
            }
        }
        self.init_scene();
    }

    /// Whether the controller's own counters leave room for one more bar.
    pub fn has_bar_room(&self) -> (r: bool)
        ensures
            r == self@.bar_room(),
    {
        self.scene_index < usize::MAX && self.bar_count < usize::MAX
    }

    /// A bar boundary that comes from outside, with the measure of the external
    /// clock: starts the next bar, so that the next tick is its first.
    pub fn bar_boundary(&mut self)
        requires
            old(self)@.wf(),
            old(self)@.bar_room(),
        ensures
            final(self)@ == old(self)@.bar_boundary_next(),
            final(self)@.wf(),
    {
        self.next_bar();
        self.clock_count = 0;
    }

    /// Whether the counters leave room for one more call of `clock`.
    pub fn has_headroom(&self) -> (r: bool)
        requires
            self@.wf(),
        ensures
            r == self@.headroom(),
    {
        if self.scene_index == usize::MAX || self.bar_count == usize::MAX {
            return false;
        }
        let playlist_index = self.scene_index % self.perf.playlist.len();
        let tracks: usize = match self.perf.scene_index(&self.perf.playlist[playlist_index]) {
            Some(found) => self.perf.scenes[found].tracks.len(),
            None => 0,
        };
        assert(tracks == self@.tracks().len());
        if tracks > usize::MAX / 2 {
            proof {
                if self@.players.len() > 0 && self@.headroom() {
                    assert(self@.players[0].clock_count + 2 * tracks <= usize::MAX);
                }
            }
            return self.players.len() == 0;
        }
        let slack: usize = 2 * tracks;
        let limit: usize = usize::MAX - slack;
        let mut i: usize = 0;
        while i < self.players.len()
            invariant
                i <= self.players.len(),
                slack == 2 * self@.tracks().len(),
                limit == usize::MAX - slack,
                self@.bar_room(),
                forall|j: int|
                    0 <= j < i ==> (#[trigger] self@.players[j]).clock_count + slack <= usize::MAX
                        && self@.players[j].bar_count + slack <= usize::MAX,
            decreases self.players.len() - i,
        {
            if self.players[i].clock_count() > limit || self.players[i].bar_count() > limit {
                assert(!(self@.players[i as int].clock_count + slack <= usize::MAX
                    && self@.players[i as int].bar_count + slack <= usize::MAX));
                return false;
            }
            i += 1;
        }
        true
    }

    /// Advances the performance by one fine tick. A tick that finds a whole
    /// measure counted starts the next bar and counts from zero. Any other tick
    /// clocks the players of the scene that plays, in two passes: first every
    /// track that follows no other, then every follower, which is pulled on to
    /// its own next bar where its master struck a note in this very tick.
    pub fn clock(&mut self)
        requires
            old(self)@.wf(),
            old(self)@.headroom(),
        ensures
            final(self)@ == old(self)@.clock_next(),
            final(self)@.wf(),
    {
        let ghost pre = self@;
        assert(TICKS_PER_MEASURE == 8064);
        if self.clock_count >= 8064 {
            self.bar_boundary();
            return;
        }
        let playlist_index = self.scene_index % self.perf.playlist.len();
        match self.perf.scene_index(&self.perf.playlist[playlist_index]) {
            Some(found) => {
                let ghost tracks = pre.tracks();
                let ghost start = pre.tick_start();
                proof {
                    lemma_active_scene(pre);
                }
                let n = self.perf.scenes[found].tracks.len();
                let mut played: Vec<(String, bool)> = Vec::new();
                assert(played_view(played@) =~= Seq::empty());
                let mut t: usize = 0;
                while t < n
                    invariant
                        t <= n,
                        found < self.perf.scenes.len(),
                        n == self.perf.scenes[found as int].tracks.len(),
                        n == tracks.len(),
                        tracks == self.perf.scenes[found as int]@.tracks,
                        pre.perf.scene_playable(pre.scene()->0),
                        pre.scene() == Some(self.perf.scenes[found as int]@),
                        pre.wf(),
                        start == pre.tick_start(),
                        self@ == (PerformanceState {
                            players: self@.players,
                            output: self@.output,
                            ..pre
                        }),
                        (TickState {
                            players: self@.players,
                            output: self@.output,
                            played: played_view(played@),
                        }) == clock_masters(start, tracks.take(t as int)),
                        players_valid(self@.players),
                        players_have_room(self@.players, (2 * n - t) as nat),
                    decreases n - t,
                {
                    let track = &self.perf.scenes[found].tracks[t];
                    proof {
                        lemma_clock_masters_step(start, tracks, t as int);
                        assert(tracks[t as int] == track@);
                    }
                    if track.follow.is_none() {
                        match player_index(&self.players, &track.instrument) {
                            Some(i) => {
                                let ghost before = players_view(self.players@);
                                let ghost record = played_view(played@);
                                assert(before[i as int].instrument.valid());
                                let result = self.players[i].clock(&mut self.device_manager);
                                played.push((track.instrument.clone(), result.note_was_played));
                                proof {
                                    assert(players_view(self.players@) =~= before.update(
                                        i as int,
                                        before[i as int].clock_next(),
                                    ));
                                    assert(played_view(played@) =~= record.push(
                                        (track@.instrument, result.note_was_played),
                                    ));
                                }
                            },
                            None => {},
                        }
                    }
                    t += 1;
                }
                assert(tracks.take(t as int) =~= tracks);
                let ghost middle = clock_masters(start, tracks);
                let mut t: usize = 0;
                while t < n
                    invariant
                        t <= n,
                        found < self.perf.scenes.len(),
                        n == self.perf.scenes[found as int].tracks.len(),
                        n == tracks.len(),
                        tracks == self.perf.scenes[found as int]@.tracks,
                        pre.perf.scene_playable(pre.scene()->0),
                        pre.scene() == Some(self.perf.scenes[found as int]@),
                        pre.wf(),
                        middle.played == played_view(played@),
                        self@ == (PerformanceState {
                            players: self@.players,
                            output: self@.output,
                            ..pre
                        }),
                        (TickState {
                            players: self@.players,
                            output: self@.output,
                            played: played_view(played@),
                        }) == clock_followers(middle, tracks.take(t as int)),
                        players_valid(self@.players),
                        players_have_room(self@.players, (n - t) as nat),
                    decreases n - t,
                {
                    let track = &self.perf.scenes[found].tracks[t];
                    proof {
                        lemma_clock_followers_step(middle, tracks, t as int);
                        assert(tracks[t as int] == track@);
                        assert(track@.valid());
                    }
                    match &track.follow {
                        Some(master) => {
                            match player_index(&self.players, &track.instrument) {
                                Some(i) => {
                                    let ghost before = players_view(self.players@);
                                    let ghost queued = self.device_manager@;
                                    assert(before[i as int].instrument.valid());
                                    let pulled = played_lookup(&played, master);
                                    if pulled {
                                        self.players[i].next_bar(&mut self.device_manager);
                                        let bar = self.players[i].bar_count();
                                        let seq_name = track.play[bar % track.play.len()].clone();
                                        self.players[i].bind(seq_name);
                                    }
                                    let ghost ready = follower_before_clock(
                                        before[i as int],
                                        track@,
                                        pulled,
                                    );
                                    assert(self.players[i as int]@ == ready);
                                    self.players[i].clock(&mut self.device_manager);
                                    proof {
                                        assert(players_view(self.players@) =~= before.update(
                                            i as int,
                                            ready.clock_next(),
                                        ));
                                        assert(self.device_manager@ =~= queued + (if pulled {
                                            before[i as int].flush_writes()
                                        } else {
                                            Seq::empty()
                                        }) + ready.clock_writes());
                                    }
                                },
                                None => {},
                            }
                        },
                        None => {},
                    }
                    t += 1;
                }
                assert(tracks.take(t as int) =~= tracks);
            },
            None => {
                assert(pre.tracks() =~= Seq::empty());
            },
        }
        self.clock_count += 1;
    }
}

/// The view of a definition that may have come.
pub open spec fn update_view(update: Option<Performance>) -> Option<PerformanceView> {
    match update {
        Some(def) => Some(def@),
        None => None,
    }
}

/// What one turn of the controller's loop reports.
#[derive(Debug)]
pub struct PollResult {
    /// The controller settings of the definition that was taken in, if one was.
    pub controller: Option<Controller>,
    /// Whether a definition came and was turned away as invalid.
    pub rejected: bool,
    /// Whether the performance started its next bar at a bar boundary.
    pub advanced: bool,
    /// Whether the performance was clocked.
    pub ticked: bool,
}

impl PerformanceController {
    /// One turn of the controller's loop, with what came in since the last: at
    /// most one new definition, whether a reset was asked for, whether a measure
    /// of the external clock is full, and whether a tick came. The definition is
    /// taken in first, unless it is invalid: then the one that plays stays. Then
    /// the reset is done, then the bar boundary, then the tick, the last two
    /// unless a counter has reached the machine's limit.
    pub fn poll(&mut self, update: Option<Performance>, reset: bool, bar: bool, tick: bool) -> (r:
        PollResult)
        requires
            old(self)@.wf(),
        ensures
            final(self)@ == old(self)@.poll_next(update_view(update), reset, bar, tick),
            final(self)@.wf(),
            match r.controller {
                Some(c) => update is Some && update->0@.valid() && c@ == update->0@.controller,
                None => !(update is Some && update->0@.valid()),
            },
            r.rejected == (update is Some && !update->0@.valid()),
            r.advanced == (bar && old(self)@.informed(update_view(update), reset).bar_room()),
            r.ticked == (tick && old(self)@.informed(update_view(update), reset).bounded(
                bar,
            ).headroom()),
    {
        let mut result = PollResult {
            controller: None,
            rejected: false,
            advanced: false,
            ticked: false,
        };
        match update {
            Some(def) => {
                if def.is_valid() {
                    result.controller = Some(def.controller.clone());
                    self.update_def(def);
                } else {
                    result.rejected = true;
                }
            },
            None => {},
        }
        if reset {
            self.reset();
        }
        if bar && self.has_bar_room() {
            self.bar_boundary();
            result.advanced = true;
        }
        if tick && self.has_headroom() {
            self.clock();
            result.ticked = true;
        }
        result
    }
}

// Bar rollover ------------------------------------------------------------------------------------

proof fn lemma_bars_within_scene(s: PerformanceState, n: nat, k: nat)
    requires
        s.wf(),
        s.bar_count == 0,
        s.scene() is Some,
        s.scene()->0.tracks[0].play.len() == n,
        k < n,
    ensures
        s.bars_next(k).scene_index == s.scene_index,
        s.bars_next(k).bar_count == k,
        s.bars_next(k).perf == s.perf,
    decreases k,
{
    if k > 0 {
        lemma_bars_within_scene(s, n, (k - 1) as nat);
        let then = s.bars_next((k - 1) as nat);
        assert(then.scene() == s.scene());
        assert(!then.scene_complete());
    }
}

/// Bar rollover. In a scene whose first track plays `n` sequences, the first
/// `n - 1` bar advances stay in the scene and count its bars; the `n`-th moves
/// on to the next entry of the playlist, which is taken in a cycle, and starts
/// counting bars at zero again.
pub proof fn lemma_bar_rollover(s: PerformanceState, n: nat)
    requires
        s.wf(),
        s.bar_count == 0,
        s.scene() is Some,
        s.scene()->0.tracks[0].play.len() == n,
    ensures
        n >= 1,
        forall|k: nat|
            k < n ==> (#[trigger] s.bars_next(k)).scene_index == s.scene_index && s.bars_next(
                k,
            ).bar_count == k,
        s.bars_next(n).scene_index == s.scene_index + 1,
        s.bars_next(n).bar_count == 0,
        s.bars_next(n).perf == s.perf,
        s.bars_next(n).scene_name() == s.perf.playlist[((s.scene_index + 1)
            % s.perf.playlist.len()) as int],
{
    lemma_active_scene(s);
    assert(s.scene()->0.tracks[0].valid());
    assert forall|k: nat| k < n implies (#[trigger] s.bars_next(k)).scene_index == s.scene_index
        && s.bars_next(k).bar_count == k by {
        lemma_bars_within_scene(s, n, k);
    }
    lemma_bars_within_scene(s, n, (n - 1) as nat);
    let last = s.bars_next((n - 1) as nat);
    assert(last.scene() == s.scene());
    assert(last.scene_complete());
}

// A new definition leaves playback alone ----------------------------------------------------------

/// Whether `after` holds every player of `before` in its place, with the same
/// cursor, ticks, bars and sounding notes, under the same name.
pub open spec fn playback_kept(before: Seq<PlayerView>, after: Seq<PlayerView>) -> bool {
    &&& before.len() <= after.len()
    &&& forall|i: int|
        0 <= i < before.len() ==> {
            &&& (#[trigger] after[i]).instrument.name == before[i].instrument.name
            &&& after[i].step_index == before[i].step_index
            &&& after[i].clock_count == before[i].clock_count
            &&& after[i].bar_count == before[i].bar_count
            &&& after[i].notes == before[i].notes
        }
    &&& forall|name: Seq<char>|
        find_player(before, name) is Some ==> #[trigger] find_player(after, name) == find_player(
            before,
            name,
        )
}

proof fn lemma_merge_track_keeps(
    before: Seq<PlayerView>,
    players: Seq<PlayerView>,
    perf: PerformanceView,
    track: TrackView,
    bar: nat,
)
    requires
        playback_kept(before, players),
    ensures
        playback_kept(before, merge_track(players, perf, track, bar)),
{
    let after = merge_track(players, perf, track, bar);
    lemma_last_named(perf.instrument_names(), track.instrument);
    lemma_last_named(player_names(players), track.instrument);
    match perf.find_instrument(track.instrument) {
        Some(inst) => {
            match find_player(players, track.instrument) {
                Some(i) => {
                    assert(player_names(players)[i] == track.instrument);
                    assert(player_names(after) =~= player_names(players));
                    assert forall|name: Seq<char>| find_player(before, name) is Some implies
                        #[trigger] find_player(after, name) == find_player(before, name) by {
                        assert(find_player(players, name) == find_player(before, name));
                    }
                    assert forall|j: int| 0 <= j < before.len() implies {
                        &&& (#[trigger] after[j]).instrument.name == before[j].instrument.name
                        &&& after[j].step_index == before[j].step_index
                        &&& after[j].clock_count == before[j].clock_count
                        &&& after[j].bar_count == before[j].bar_count
                        &&& after[j].notes == before[j].notes
                    } by {
                        assert(players[j].instrument.name == before[j].instrument.name);
                        assert(player_names(players)[j] == players[j].instrument.name);
                    }
                },
                None => {
                    let names = player_names(players);
                    assert(player_names(after) =~= names.push(inst.name));
                    assert(player_names(after).drop_last() =~= names);
                    assert forall|name: Seq<char>| find_player(before, name) is Some implies
                        #[trigger] find_player(after, name) == find_player(before, name) by {
                        assert(find_player(players, name) == find_player(before, name));
                        assert(name != track.instrument);
                    }
                    assert forall|j: int| 0 <= j < before.len() implies {
                        &&& (#[trigger] after[j]).instrument.name == before[j].instrument.name
                        &&& after[j].step_index == before[j].step_index
                        &&& after[j].clock_count == before[j].clock_count
                        &&& after[j].bar_count == before[j].bar_count
                        &&& after[j].notes == before[j].notes
                    } by {
                        assert(after[j] == players[j]);
                    }
                },
            }
        },
        None => {},
    }
}

proof fn lemma_merge_tracks_keeps(
    players: Seq<PlayerView>,
    perf: PerformanceView,
    tracks: Seq<TrackView>,
    bar: nat,
)
    ensures
        playback_kept(players, merge_tracks(players, perf, tracks, bar)),
    decreases tracks.len(),
{
    if tracks.len() > 0 {
        lemma_merge_tracks_keeps(players, perf, tracks.drop_last(), bar);
        lemma_merge_track_keeps(
            players,
            merge_tracks(players, perf, tracks.drop_last(), bar),
            perf,
            tracks.last(),
            bar,
        );
    }
}

/// A new definition does not disturb what plays. Whatever definition is
/// offered, valid or not, no message is queued and no counter of the controller
/// moves; every player is still found under its instrument's name, in its
/// place, with its cursor, its ticks, its bars and each sounding note's deadline
/// as they were. So a note that sounds gets its note-off at the tick it was due,
/// and the new content is first read at the next step boundary. The definition
/// that plays afterwards is the new one where that is valid, else the old one.
pub proof fn lemma_update_keeps_playback(s: PerformanceState, def: PerformanceView)
    ensures
        s.update_def_next(def).output == s.output,
        s.update_def_next(def).scene_index == s.scene_index,
        s.update_def_next(def).bar_count == s.bar_count,
        s.update_def_next(def).clock_count == s.clock_count,
        s.update_def_next(def).perf == (if def.valid() {
            def
        } else {
            s.perf
        }),
        playback_kept(s.players, s.update_def_next(def).players),
{
    if def.valid() {
        let swapped = PerformanceState { perf: def, ..s };
        lemma_merge_tracks_keeps(s.players, def, swapped.tracks(), s.bar_count);
    }
}

// Followers ---------------------------------------------------------------------------------------

/// Neither pass gives a player another name or another place.
proof fn lemma_pass_keeps_names(st: TickState, tracks: Seq<TrackView>)
    ensures
        player_names(clock_masters(st, tracks).players) == player_names(st.players),
        player_names(clock_followers(st, tracks).players) == player_names(st.players),
        clock_followers(st, tracks).played == st.played,
    decreases tracks.len(),
{
    if tracks.len() > 0 {
        lemma_pass_keeps_names(st, tracks.drop_last());
        let track = tracks.last();
        let m = clock_masters(st, tracks.drop_last());
        lemma_last_named(player_names(m.players), track.instrument);
        assert(player_names(clock_master(m, track).players) =~= player_names(m.players));
        let f = clock_followers(st, tracks.drop_last());
        lemma_last_named(player_names(f.players), track.instrument);
        assert(player_names(clock_follower(f, track).players) =~= player_names(f.players));
    }
}

/// The first pass leaves alone the player and the record of an instrument that
/// no track without a master names.
proof fn lemma_masters_frame(st: TickState, tracks: Seq<TrackView>, name: Seq<char>)
    requires
        forall|u: int|
            0 <= u < tracks.len() && (#[trigger] tracks[u]).follow is None ==> tracks[u].instrument
                != name,
    ensures
        was_played(clock_masters(st, tracks).played, name) == was_played(st.played, name),
        find_player(st.players, name) is Some ==> clock_masters(st, tracks).players[find_player(
            st.players,
            name,
        )->0] == st.players[find_player(st.players, name)->0],
    decreases tracks.len(),
{
    if tracks.len() > 0 {
        let front = tracks.drop_last();
        let track = tracks.last();
        assert forall|u: int| 0 <= u < front.len() && (#[trigger] front[u]).follow is None implies front[u].instrument != name by {
            assert(front[u] == tracks[u]);
        }
        lemma_masters_frame(st, front, name);
        lemma_pass_keeps_names(st, front);
        let m = clock_masters(st, front);
        lemma_last_named(player_names(m.players), track.instrument);
        lemma_last_named(player_names(m.players), name);
        if track.follow is None && find_player(m.players, track.instrument) is Some {
            assert(tracks[tracks.len() - 1].instrument != name);
            let j = find_player(m.players, track.instrument)->0;
            assert(player_names(m.players)[j] == track.instrument);
            let names = m.played.map_values(|e: (Seq<char>, bool)| e.0);
            let after = clock_master(m, track).played;
            let after_names = after.map_values(|e: (Seq<char>, bool)| e.0);
            assert(after_names.drop_last() =~= names);
            assert(after_names.last() == track.instrument);
            assert(last_named(after_names, name) == last_named(names, name));
            lemma_last_named(names, name);
            if last_named(names, name) is Some {
                let k = last_named(names, name)->0;
                assert(after[k] == m.played[k]);
            }
            assert(was_played(after, name) == was_played(m.played, name));
            if find_player(st.players, name) is Some {
                let i = find_player(st.players, name)->0;
                assert(player_names(m.players)[i] == name);
                assert(i != j);
            }
        }
    }
}

/// The second pass leaves alone the player of an instrument that no follower
/// names.
proof fn lemma_followers_frame(st: TickState, tracks: Seq<TrackView>, name: Seq<char>)
    requires
        forall|u: int|
            0 <= u < tracks.len() && (#[trigger] tracks[u]).follow is Some ==> tracks[u].instrument
                != name,
    ensures
        find_player(st.players, name) is Some ==> clock_followers(st, tracks).players[find_player(
            st.players,
            name,
        )->0] == st.players[find_player(st.players, name)->0],
    decreases tracks.len(),
{
    if tracks.len() > 0 {
        let front = tracks.drop_last();
        let track = tracks.last();
        assert forall|u: int| 0 <= u < front.len() && (#[trigger] front[u]).follow is Some implies front[u].instrument != name by {
            assert(front[u] == tracks[u]);
        }
        lemma_followers_frame(st, front, name);
        lemma_pass_keeps_names(st, front);
        let f = clock_followers(st, front);
        lemma_last_named(player_names(f.players), track.instrument);
        lemma_last_named(player_names(f.players), name);
        if track.follow is Some && find_player(f.players, track.instrument) is Some {
            assert(tracks[tracks.len() - 1].instrument != name);
            let j = find_player(f.players, track.instrument)->0;
            assert(player_names(f.players)[j] == track.instrument);
            if find_player(st.players, name) is Some {
                let i = find_player(st.players, name)->0;
                assert(player_names(f.players)[i] == name);
                assert(i != j);
            }
        }
    }
}

/// The second pass does to the player of a follower that alone names its
/// instrument what `clock_follower` does for that one track.
proof fn lemma_followers_one(st: TickState, tracks: Seq<TrackView>, t: int, master: Seq<char>)
    requires
        0 <= t < tracks.len(),
        tracks[t].follow == Some(master),
        find_player(st.players, tracks[t].instrument) is Some,
        forall|u: int|
            0 <= u < tracks.len() && u != t ==> (#[trigger] tracks[u]).instrument
                != tracks[t].instrument,
    ensures
        clock_followers(st, tracks).players[find_player(st.players, tracks[t].instrument)->0]
            == follower_before_clock(
            st.players[find_player(st.players, tracks[t].instrument)->0],
            tracks[t],
            was_played(st.played, master),
        ).clock_next(),
    decreases tracks.len(),
{
    let name = tracks[t].instrument;
    let i = find_player(st.players, name)->0;
    let front = tracks.drop_last();
    let track = tracks.last();
    let f = clock_followers(st, front);
    lemma_pass_keeps_names(st, front);
    lemma_last_named(player_names(f.players), track.instrument);
    lemma_last_named(player_names(f.players), name);
    if t == tracks.len() - 1 {
        assert forall|u: int| 0 <= u < front.len() && (#[trigger] front[u]).follow is Some implies front[u].instrument != name by {
            assert(front[u] == tracks[u]);
        }
        lemma_followers_frame(st, front, name);
    } else {
        assert(front[t] == tracks[t]);
        assert forall|u: int| 0 <= u < front.len() && u != t implies (#[trigger] front[u]).instrument != front[t].instrument by {
            assert(front[u] == tracks[u]);
        }
        lemma_followers_one(st, front, t, master);
        assert(tracks[tracks.len() - 1].instrument != name);
        if track.follow is Some && find_player(f.players, track.instrument) is Some {
            let j = find_player(f.players, track.instrument)->0;
            assert(player_names(f.players)[j] == track.instrument);
            assert(player_names(f.players)[i] == name);
            assert(i != j);
        }
    }
}

/// Follower causality, within a tick. A follower that alone in its scene names
/// its instrument is pulled on to its next bar exactly in a tick in which its
/// master struck a note, once, before it is clocked itself: its count of bars
/// goes up by one in such a tick and stays in any other.
pub proof fn lemma_follower_causality(s: PerformanceState, t: int, master: Seq<char>)
    requires
        s.clock_count < TICKS_PER_MEASURE,
        0 <= t < s.tracks().len(),
        s.tracks()[t].follow == Some(master),
        find_player(s.players, s.tracks()[t].instrument) is Some,
        forall|u: int|
            0 <= u < s.tracks().len() && u != t ==> (#[trigger] s.tracks()[u]).instrument
                != s.tracks()[t].instrument,
    ensures
        ({
            let i = find_player(s.players, s.tracks()[t].instrument)->0;
            let pulled = s.master_struck(master);
            &&& s.clock_next().players[i] == follower_before_clock(
                s.players[i],
                s.tracks()[t],
                pulled,
            ).clock_next()
            &&& s.clock_next().players[i].bar_count == s.players[i].bar_count + (if pulled {
                1nat
            } else {
                0nat
            })
            &&& find_player(s.clock_next().players, s.tracks()[t].instrument) == Some(i)
        }),
{
    let tracks = s.tracks();
    let name = tracks[t].instrument;
    let i = find_player(s.players, name)->0;
    let start = s.tick_start();
    let middle = clock_masters(start, tracks);
    assert forall|u: int| 0 <= u < tracks.len() && (#[trigger] tracks[u]).follow is None implies tracks[u].instrument != name by {}
    lemma_masters_frame(start, tracks, name);
    lemma_pass_keeps_names(start, tracks);
    lemma_pass_keeps_names(middle, tracks);
    assert(find_player(middle.players, name) == Some(i));
    lemma_followers_one(middle, tracks, t, master);
}

/// Follower causality, at a bar boundary. Where the scene goes on, the
/// controller's bar advance leaves alone the player of an instrument that only
/// followers name: such a track never advances on the controller's own bar
/// boundary.
pub proof fn lemma_follower_keeps_bar(s: PerformanceState, name: Seq<char>)
    requires
        !s.scene_complete(),
        find_player(s.players, name) is Some,
        forall|u: int|
            0 <= u < s.tracks().len() && (#[trigger] s.tracks()[u]).follow is None
                ==> s.tracks()[u].instrument != name,
    ensures
        s.next_bar_next().players[find_player(s.players, name)->0] == s.players[find_player(
            s.players,
            name,
        )->0],
        find_player(s.next_bar_next().players, name) == find_player(s.players, name),
{
    let turned = s.bar_turned();
    assert(turned.tracks() == s.tracks());
    lemma_restart_frame(s.players, s.tracks(), turned.bar_count, name);
}

/// A bar advance leaves alone the player of an instrument that no track
/// without a master names, and gives no player another name or place.
proof fn lemma_restart_frame(players: Seq<PlayerView>, tracks: Seq<TrackView>, bar: nat, name: Seq<char>)
    requires
        forall|u: int|
            0 <= u < tracks.len() && (#[trigger] tracks[u]).follow is None ==> tracks[u].instrument
                != name,
    ensures
        player_names(restart_tracks(players, tracks, bar)) == player_names(players),
        find_player(players, name) is Some ==> restart_tracks(players, tracks, bar)[find_player(
            players,
            name,
        )->0] == players[find_player(players, name)->0],
    decreases tracks.len(),
{
    if tracks.len() > 0 {
        let front = tracks.drop_last();
        let track = tracks.last();
        assert forall|u: int| 0 <= u < front.len() && (#[trigger] front[u]).follow is None implies front[u].instrument != name by {
            assert(front[u] == tracks[u]);
        }
        lemma_restart_frame(players, front, bar, name);
        let r = restart_tracks(players, front, bar);
        lemma_last_named(player_names(r), track.instrument);
        lemma_last_named(player_names(r), name);
        assert(player_names(restart_track(r, track, bar)) =~= player_names(r));
        if track.follow is None && find_player(r, track.instrument) is Some {
            assert(tracks[tracks.len() - 1].instrument != name);
            let j = find_player(r, track.instrument)->0;
            assert(player_names(r)[j] == track.instrument);
            if find_player(players, name) is Some {
                let i = find_player(players, name)->0;
                assert(player_names(r)[i] == name);
                assert(i != j);
            }
        }
    }
}

/// What the first pass records for a track without a master that alone names
/// its instrument is what its player's own tick reports.
proof fn lemma_masters_one(st: TickState, tracks: Seq<TrackView>, m: int)
    requires
        0 <= m < tracks.len(),
        tracks[m].follow is None,
        find_player(st.players, tracks[m].instrument) is Some,
        forall|u: int|
            0 <= u < tracks.len() && u != m ==> (#[trigger] tracks[u]).instrument
                != tracks[m].instrument,
    ensures
        was_played(clock_masters(st, tracks).played, tracks[m].instrument) == st.players[find_player(
            st.players,
            tracks[m].instrument,
        )->0].clock_result().note_was_played,
    decreases tracks.len(),
{
    let name = tracks[m].instrument;
    let j = find_player(st.players, name)->0;
    let front = tracks.drop_last();
    let track = tracks.last();
    let f = clock_masters(st, front);
    lemma_pass_keeps_names(st, front);
    lemma_last_named(player_names(f.players), track.instrument);
    lemma_last_named(player_names(f.players), name);
    let names = f.played.map_values(|e: (Seq<char>, bool)| e.0);
    let after = clock_master(f, track).played;
    let after_names = after.map_values(|e: (Seq<char>, bool)| e.0);
    if m == tracks.len() - 1 {
        assert forall|u: int| 0 <= u < front.len() && (#[trigger] front[u]).follow is None implies front[u].instrument != name by {
            assert(front[u] == tracks[u]);
        }
        lemma_masters_frame(st, front, name);
        assert(after_names.last() == name);
    } else {
        assert(front[m] == tracks[m]);
        assert forall|u: int| 0 <= u < front.len() && u != m implies (#[trigger] front[u]).instrument != front[m].instrument by {
            assert(front[u] == tracks[u]);
        }
        lemma_masters_one(st, front, m);
        assert(tracks[tracks.len() - 1].instrument != name);
        if track.follow is None && find_player(f.players, track.instrument) is Some {
            assert(after_names.drop_last() =~= names);
            assert(after_names.last() == track.instrument);
            assert(last_named(after_names, name) == last_named(names, name));
            lemma_last_named(names, name);
            if last_named(names, name) is Some {
                let k = last_named(names, name)->0;
                assert(after[k] == f.played[k]);
            }
        }
    }
}

/// Follower causality, the master's side. For a track without a master that
/// alone in its scene names its instrument, the record that pulls its followers
/// is what its own player reports of this very tick: whether it struck a note.
pub proof fn lemma_master_record(s: PerformanceState, m: int)
    requires
        0 <= m < s.tracks().len(),
        s.tracks()[m].follow is None,
        find_player(s.players, s.tracks()[m].instrument) is Some,
        forall|u: int|
            0 <= u < s.tracks().len() && u != m ==> (#[trigger] s.tracks()[u]).instrument
                != s.tracks()[m].instrument,
    ensures
        s.master_struck(s.tracks()[m].instrument) == s.players[find_player(
            s.players,
            s.tracks()[m].instrument,
        )->0].clock_result().note_was_played,
{
    lemma_masters_one(s.tick_start(), s.tracks(), m);
}

} // verus!

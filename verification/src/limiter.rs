//! Per-source limiting of failed attach upgrades.
use crate::clock::{in_range, SECOND};
use crate::session::elapsed;
use crate::table::{lemma_unique_find, Table};
use vstd::prelude::*;

verus! {

/// Failed upgrades within a window before a source is banned.
pub const UPGRADE_FAILURE_LIMIT: u32 = 5;

/// The window, in nanoseconds.
pub const UPGRADE_FAILURE_WINDOW: u128 = 60 * SECOND;

/// The ban, in nanoseconds.
pub const UPGRADE_FAILURE_BAN: u128 = 60 * SECOND;

/// Bound on tracked source addresses, so the limiter itself cannot be turned into a
/// memory-growth vector by rotating source addresses.
pub const MAX_TRACKED_SOURCES: usize = 4096;

/// What is remembered of one failing source.
#[derive(Clone, Copy, Debug, PartialEq, Eq, Structural)]
pub struct FailureWindow {
    pub window_start: u128,
    pub failures: u32,
    pub banned_until: Option<u128>,
    pub last_seen: u128,
}

impl FailureWindow {
    /// A source that has not failed yet.
    pub open spec fn fresh(now: u128) -> FailureWindow {
        FailureWindow { window_start: now, failures: 0, banned_until: None, last_seen: now }
    }

    /// Whether the source is under an active ban.
    pub open spec fn banned(self, now: u128) -> bool {
        self.banned_until matches Some(until) && until > now
    }

    /// The state after it was seen again.
    pub open spec fn seen(self, now: u128) -> FailureWindow {
        FailureWindow { last_seen: now, ..self }
    }

    /// The failures in the window that `now` falls into, with one more.
    pub open spec fn failures_now(self, window: u128, now: u128) -> int {
        let counted: u32 = if elapsed(self.window_start, now) >= window {
            0
        } else {
            self.failures
        };
        if counted < u32::MAX {
            counted + 1
        } else {
            u32::MAX as int
        }
    }

    /// Whether one more failure starts a ban.
    pub open spec fn tips(self, limit: u32, window: u128, now: u128) -> bool {
        self.failures_now(window, now) >= limit
    }

    /// The state after one more failure.
    pub open spec fn failed(self, limit: u32, window: u128, ban: u128, now: u128) -> FailureWindow {
        if self.tips(limit, window, now) {
            FailureWindow {
                window_start: now,
                failures: 0,
                banned_until: Some((now + ban) as u128),
                last_seen: now,
            }
        } else {
            FailureWindow {
                window_start: if elapsed(self.window_start, now) >= window {
                    now
                } else {
                    self.window_start
                },
                failures: self.failures_now(window, now) as u32,
                banned_until: self.banned_until,
                last_seen: now,
            }
        }
    }

    fn is_banned(&self, now: u128) -> (banned: bool)
        ensures
            banned == self.banned(now),
    {
        match self.banned_until {
            Some(until) => until > now,
            None => false,
        }
    }
}

/// What an [`UpgradeFailureLimiter`] knows.
#[verifier::ext_equal]
pub struct LimiterModel {
    pub limit: u32,
    pub window: u128,
    pub ban: u128,
    pub sources: Map<Seq<char>, FailureWindow>,
}

/// How long an unbanned source is remembered after it was seen last: the window or
/// the ban, whichever is longer.
pub open spec fn memory(limiter: LimiterModel) -> u128 {
    if limiter.window >= limiter.ban {
        limiter.window
    } else {
        limiter.ban
    }
}

/// Whether there is still a reason to remember a source.
pub open spec fn worth_keeping(limiter: LimiterModel, state: FailureWindow, now: u128) -> bool {
    state.banned(now) || elapsed(state.last_seen, now) < memory(limiter)
}

/// The sources worth remembering.
pub open spec fn remembered(limiter: LimiterModel, now: u128) -> Map<Seq<char>, FailureWindow> {
    Map::new(
        |source: Seq<char>|
            limiter.sources.contains_key(source) && worth_keeping(
                limiter,
                limiter.sources[source],
                now,
            ),
        |source: Seq<char>| limiter.sources[source],
    )
}

/// Whether `victim` may make room for a new source: it is not under an active ban,
/// and no such source was seen less recently.
pub open spec fn may_go(
    sources: Map<Seq<char>, FailureWindow>,
    victim: Seq<char>,
    now: u128,
) -> bool {
    &&& sources.contains_key(victim)
    &&& !sources[victim].banned(now)
    &&& forall|other: Seq<char>| #[trigger]
        sources.contains_key(other) && !sources[other].banned(now) ==> sources[victim].last_seen
            <= sources[other].last_seen
}

/// What is remembered of a source, or the state of a new one.
pub open spec fn known_or_fresh(
    sources: Map<Seq<char>, FailureWindow>,
    source: Seq<char>,
    now: u128,
) -> FailureWindow {
    if sources.contains_key(source) {
        sources[source]
    } else {
        FailureWindow::fresh(now)
    }
}

/// Whether `after` is what the limiter's sources become when one more failure of
/// `source` is counted, and `tipped` whether that started a ban. Where every slot is
/// under an active ban, a new source goes uncounted.
pub open spec fn counted(
    limiter: LimiterModel,
    after: Map<Seq<char>, FailureWindow>,
    source: Seq<char>,
    now: u128,
    tipped: bool,
) -> bool {
    let live = remembered(limiter, now);
    let state = known_or_fresh(live, source, now);
    let next = state.failed(limiter.limit, limiter.window, limiter.ban, now);
    if live.contains_key(source) || live.dom().len() < MAX_TRACKED_SOURCES {
        &&& after == live.insert(source, next)
        &&& tipped == state.tips(limiter.limit, limiter.window, now)
    } else if exists|victim: Seq<char>| may_go(live, victim, now) {
        &&& exists|victim: Seq<char>|
            may_go(live, victim, now) && after == #[trigger] live.remove(victim).insert(source, next)
        &&& tipped == state.tips(limiter.limit, limiter.window, now)
    } else {
        &&& after == live
        &&& !tipped
    }
}

/// Per-source failure limiter for attach upgrades.
///
/// **Source semantics, stated because it is easy to get wrong**: a source is the
/// *peer socket address*. `X-Forwarded-For` is deliberately not trusted: it is
/// client-settable, so honouring it would let an attacker rotate a header value to
/// reset the bucket, and would let them ban a victim's address. Behind a trusted
/// proxy the limiter therefore degrades to per-proxy, which bounds work but not
/// per-client fairness.
pub struct UpgradeFailureLimiter {
    limit: u32,
    window: u128,
    ban: u128,
    sources: Table<FailureWindow>,
}

impl View for UpgradeFailureLimiter {
    type V = LimiterModel;

    closed spec fn view(&self) -> LimiterModel {
        LimiterModel {
            limit: self.limit,
            window: self.window,
            ban: self.ban,
            sources: self.sources@,
        }
    }
}

impl Default for UpgradeFailureLimiter {
    fn default() -> (limiter: Self)
        ensures
            limiter@ == (LimiterModel {
                limit: 5,
                window: 60_000_000_000,
                ban: 60_000_000_000,
                sources: Map::empty(),
            }),
    {
        Self::new(UPGRADE_FAILURE_LIMIT, UPGRADE_FAILURE_WINDOW, UPGRADE_FAILURE_BAN)
    }
}

impl UpgradeFailureLimiter {
    #[verifier::type_invariant]
    spec fn bounded(self) -> bool {
        &&& self.sources.entries().len() <= MAX_TRACKED_SOURCES
        &&& in_range(self.window)
        &&& in_range(self.ban)
    }

    pub fn new(limit: u32, window: u128, ban: u128) -> (limiter: Self)
        requires
            in_range(window),
            in_range(ban),
        ensures
            limiter@ == (LimiterModel { limit, window, ban, sources: Map::empty() }),
    {
        UpgradeFailureLimiter { limit, window, ban, sources: Table::new() }
    }

    /// How many sources are being remembered.
    pub fn tracked_sources(&self) -> (n: usize)
        ensures
            n == self@.sources.dom().len(),
            n <= MAX_TRACKED_SOURCES,
    {
        proof {
            use_type_invariant(self);
        }
        self.sources.len()
    }

    /// What is remembered of a source.
    pub fn state_of(&self, source: &str) -> (state: Option<FailureWindow>)
        ensures
            match state {
                Some(state) => self@.sources.contains_key(source@) && state
                    == self@.sources[source@],
                None => !self@.sources.contains_key(source@),
            },
    {
        match self.sources.get(source) {
            Some(state) => Some(*state),
            None => None,
        }
    }

    /// How long the source is still banned, if it is.
    ///
    /// The source counts as seen, also while it is banned. Without that, a source
    /// that keeps knocking looks *stale* to eviction, so churn over distinct
    /// addresses could evict an active ban and hand the banned source a reset.
    pub fn check(&mut self, source: &str, now: u128) -> (result: Result<(), u128>)
        ensures
            final(self)@ == if old(self)@.sources.contains_key(source@) {
                LimiterModel {
                    sources: old(self)@.sources.insert(
                        source@,
                        old(self)@.sources[source@].seen(now),
                    ),
                    ..old(self)@
                }
            } else {
                old(self)@
            },
            if old(self)@.sources.contains_key(source@) && old(self)@.sources[source@].banned(now) {
                result matches Err(wait) && wait == old(self)@.sources[source@].banned_until->0
                    - now
            } else {
                result is Ok
            },
    {
        proof {
            use_type_invariant(&*self);
        }
        let i: usize = match self.sources.position(source) {
            Some(i) => i,
            None => return Ok(()),
        };
        let state = *self.sources.value_at(i);
        let mut sources: Table<FailureWindow> = Table::new();
        std::mem::swap(&mut sources, &mut self.sources);
        sources.set_at(i, FailureWindow { last_seen: now, ..state });
        self.sources = sources;
        match state.banned_until {
            Some(until) => if until > now {
                Err(until - now)
            } else {
                Ok(())
            },
            None => Ok(()),
        }
    }

    /// Record a failed upgrade. Answers `true` when this failure started a ban.
    pub fn record_failure(&mut self, source: &str, now: u128) -> (tipped: bool)
        requires
            in_range(now),
        ensures
            counted(old(self)@, final(self)@.sources, source@, now, tipped),
            final(self)@ == (LimiterModel { sources: final(self)@.sources, ..old(self)@ }),
    {
        proof {
            use_type_invariant(&*self);
        }
        let mut sources: Table<FailureWindow> = Table::new();
        std::mem::swap(&mut sources, &mut self.sources);
        let ghost model = old(self)@;
        let window: u128 = self.window;
        let ban: u128 = self.ban;
        let limit: u32 = self.limit;
        forget_stale(&mut sources, Ghost(model), window, ban, now);
        let ghost live = sources@;
        let known: bool = sources.position(source).is_some();
        let full: bool = sources.len() >= MAX_TRACKED_SOURCES;
        let ghost mut gone: Seq<char> = Seq::empty();
        if !known && full {
            match oldest_unbanned(&sources, now) {
                Some(victim) => {
                    proof {
                        gone = sources.entries()[victim as int].0;
                    }
                    let _ = sources.remove_at(victim);
                    assert(sources@ == live.remove(gone));
                },
                None => {
                    self.sources = sources;
                    return false;
                },
            }
        }
        let ghost roomy = sources@;
        let state = match sources.get(source) {
            Some(state) => *state,
            None => FailureWindow {
                window_start: now,
                failures: 0,
                banned_until: None,
                last_seen: now,
            },
        };
        let rolled: bool = now >= state.window_start && now - state.window_start >= window
            || now < state.window_start && window == 0;
        let failures: u32 = if rolled {
            1
        } else if state.failures < u32::MAX {
            state.failures + 1
        } else {
            u32::MAX
        };
        let tipped: bool = failures >= limit;
        let next = if tipped {
            FailureWindow {
                window_start: now,
                failures: 0,
                banned_until: Some(now + ban),
                last_seen: now,
            }
        } else {
            FailureWindow {
                window_start: if rolled {
                    now
                } else {
                    state.window_start
                },
                failures,
                banned_until: state.banned_until,
                last_seen: now,
            }
        };
        let _ = sources.len();
        sources.insert(source.to_owned(), next);
        proof {
            assert(sources@ == roomy.insert(source@, next));
            assert(next == state.failed(limit, window, ban, now));
            assert(state == known_or_fresh(live, source@, now));
            if !known && full {
                assert(may_go(live, gone, now));
                assert(sources@ == live.remove(gone).insert(source@, next));
            } else {
                assert(sources@ == live.insert(source@, next));
            }
        }
        self.sources = sources;
        tipped
    }

    /// A successful attach clears the bucket for that source.
    pub fn on_success(&mut self, source: &str)
        ensures
            final(self)@ == (LimiterModel {
                sources: old(self)@.sources.remove(source@),
                ..old(self)@
            }),
    {
        proof {
            use_type_invariant(&*self);
        }
        let mut sources: Table<FailureWindow> = Table::new();
        std::mem::swap(&mut sources, &mut self.sources);
        let _ = sources.remove(source);
        self.sources = sources;
    }
}

/// Forget the sources that there is no reason to remember.
fn forget_stale(
    sources: &mut Table<FailureWindow>,
    Ghost(limiter): Ghost<LimiterModel>,
    window: u128,
    ban: u128,
    now: u128,
)
    requires
        limiter.sources == old(sources)@,
        limiter.window == window,
        limiter.ban == ban,
    ensures
        final(sources)@ == remembered(limiter, now),
        final(sources).entries().len() <= old(sources).entries().len(),
{
    let stale: u128 = if window >= ban {
        window
    } else {
        ban
    };
    let mut i: usize = 0;
    while i < sources.len()
        invariant
            limiter.sources == old(sources)@,
            limiter.window == window,
            limiter.ban == ban,
            stale == memory(limiter),
            0 <= i <= sources.entries().len(),
            sources.entries().len() <= old(sources).entries().len(),
            forall|j: int|
                0 <= j < i ==> worth_keeping(limiter, (#[trigger] sources.entries()[j]).1, now),
            forall|k: Seq<char>| #[trigger]
                sources@.contains_key(k) ==> limiter.sources.contains_key(k) && sources@[k]
                    == limiter.sources[k],
            forall|k: Seq<char>| #[trigger]
                limiter.sources.contains_key(k) && worth_keeping(limiter, limiter.sources[k], now)
                    ==> sources@.contains_key(k),
        decreases sources.entries().len() - i,
    {
        let state = *sources.value_at(i);
        let ghost key = sources.entries()[i as int].0;
        proof {
            lemma_unique_find(sources.entries(), key);
            assert(sources@[key] == state);
        }
        let fresh: bool = if now >= state.last_seen {
            now - state.last_seen < stale
        } else {
            0 < stale
        };
        if state.is_banned(now) || fresh {
            i += 1;
        } else {
            let ghost entries = sources.entries();
            let _ = sources.remove_at(i);
            assert forall|j: int| 0 <= j < i implies worth_keeping(
                limiter,
                (#[trigger] sources.entries()[j]).1,
                now,
            ) by {
                assert(sources.entries()[j] == entries[j]);
            }
        }
    }
    proof {
        assert forall|k: Seq<char>| #[trigger] sources@.contains_key(k) implies worth_keeping(
            limiter,
            sources@[k],
            now,
        ) by {
            lemma_unique_find(sources.entries(), k);
            let j = choose|j: int|
                0 <= j < sources.entries().len() && sources.entries()[j] == (k, sources@[k]);
            assert(worth_keeping(limiter, sources.entries()[j].1, now));
        }
        assert(sources@ =~= remembered(limiter, now));
    }
}

/// Where the least recently seen source stands that is not under an active ban.
fn oldest_unbanned(sources: &Table<FailureWindow>, now: u128) -> (found: Option<usize>)
    ensures
        match found {
            Some(i) => i < sources.entries().len() && may_go(
                sources@,
                sources.entries()[i as int].0,
                now,
            ),
            None => forall|victim: Seq<char>| !may_go(sources@, victim, now),
        },
{
    let ghost entries = sources.entries();
    let n: usize = sources.len();
    let mut found: Option<usize> = None;
    let mut oldest: u128 = 0;
    let mut i: usize = 0;
    while i < n
        invariant
            entries == sources.entries(),
            n == entries.len(),
            0 <= i <= n,
            match found {
                Some(v) => {
                    &&& v < i
                    &&& !entries[v as int].1.banned(now)
                    &&& entries[v as int].1.last_seen == oldest
                    &&& forall|j: int|
                        0 <= j < i && !(#[trigger] entries[j]).1.banned(now) ==> oldest
                            <= entries[j].1.last_seen
                },
                None => forall|j: int| 0 <= j < i ==> (#[trigger] entries[j]).1.banned(now),
            },
        decreases n - i,
    {
        let state = *sources.value_at(i);
        if !state.is_banned(now) && (found.is_none() || state.last_seen < oldest) {
            found = Some(i);
            oldest = state.last_seen;
        }
        i += 1;
    }
    proof {
        match found {
            Some(v) => {
                let gone = entries[v as int].0;
                lemma_unique_find(entries, gone);
                assert forall|other: Seq<char>| #[trigger]
                    sources@.contains_key(other) && !sources@[other].banned(
                        now,
                    ) implies sources@[gone].last_seen <= sources@[other].last_seen by {
                    lemma_unique_find(entries, other);
                    let j = choose|j: int|
                        0 <= j < entries.len() && entries[j] == (other, sources@[other]);
                    assert(!entries[j].1.banned(now));
                }
            },
            None => {
                assert forall|other: Seq<char>| !may_go(sources@, other, now) by {
                    if sources@.contains_key(other) {
                        lemma_unique_find(entries, other);
                        let j = choose|j: int|
                            0 <= j < entries.len() && entries[j] == (other, sources@[other]);
                        assert(entries[j].1.banned(now));
                    }
                }
            },
        }
    }
    found
}

/// Churn over distinct sources cannot shake off an active ban: whoever else fails,
/// a banned source stays banned, until the same instant.
pub proof fn law_churn_keeps_active_bans(
    limiter: LimiterModel,
    after: Map<Seq<char>, FailureWindow>,
    source: Seq<char>,
    banned: Seq<char>,
    now: u128,
    tipped: bool,
)
    requires
        counted(limiter, after, source, now, tipped),
        banned != source,
        limiter.sources.contains_key(banned),
        limiter.sources[banned].banned(now),
    ensures
        after.contains_key(banned),
        after[banned] == limiter.sources[banned],
{
    let live = remembered(limiter, now);
    assert(live.contains_key(banned));
    assert(live[banned] == limiter.sources[banned]);
}

/// The failure that reaches the limit within the window bans its source, until the ban
/// is over, and no earlier one does.
pub proof fn law_limit_bans(
    limiter: LimiterModel,
    after: Map<Seq<char>, FailureWindow>,
    source: Seq<char>,
    now: u128,
    tipped: bool,
)
    requires
        counted(limiter, after, source, now, tipped),
        in_range(now),
        in_range(limiter.ban),
    ensures
        ({
            let known = known_or_fresh(remembered(limiter, now), source, now);
            let reached = known.failures_now(limiter.window, now) >= limiter.limit;
            &&& tipped ==> reached
            &&& tipped ==> after.contains_key(source) && after[source].banned_until == Some(
                (now + limiter.ban) as u128,
            )
            &&& after.contains_key(source) && reached ==> tipped
            &&& after.contains_key(source) && !tipped ==> after[source].banned_until
                == known.banned_until
        }),
{
}

/// An unrelated source is unaffected: a source that never failed is not banned by
/// the failures of others.
pub proof fn law_failures_are_per_source(
    limiter: LimiterModel,
    after: Map<Seq<char>, FailureWindow>,
    source: Seq<char>,
    other: Seq<char>,
    now: u128,
    tipped: bool,
)
    requires
        counted(limiter, after, source, now, tipped),
        other != source,
        !limiter.sources.contains_key(other),
    ensures
        !after.contains_key(other),
{
}

/// A failure counts with the others of its window, or alone where the window is over. The
/// one that reaches the limit starts a ban of exactly the set length, and none before it
/// does; the count then begins anew.
pub proof fn law_failures_are_counted_per_window(
    state: FailureWindow,
    limit: u32,
    window: u128,
    ban: u128,
    now: u128,
    later: u128,
)
    requires
        state.window_start <= now,
        state.failures < u32::MAX,
        in_range(now),
        in_range(ban),
    ensures
        ({
            let after = state.failed(limit, window, ban, now);
            let over = now - state.window_start >= window;
            let count: int = if over {
                1
            } else {
                state.failures + 1
            };
            &&& after.last_seen == now
            &&& if count >= limit {
                &&& state.tips(limit, window, now)
                &&& after.banned(later) <==> later < now + ban
                &&& after.failures == 0
                &&& after.window_start == now
            } else {
                &&& !state.tips(limit, window, now)
                &&& after.banned_until == state.banned_until
                &&& after.failures == count
                &&& after.window_start == if over {
                    now
                } else {
                    state.window_start
                }
            }
        }),
{
}

/// A source is remembered as long as its ban runs, and for the longer of window and ban
/// after it was last seen; then it is forgotten.
pub proof fn law_sources_are_remembered_long_enough(
    limiter: LimiterModel,
    state: FailureWindow,
    now: u128,
)
    requires
        state.last_seen <= now,
    ensures
        worth_keeping(limiter, state, now) <==> {
            ||| state.banned_until matches Some(until) && now < until
            ||| now < state.last_seen + limiter.window
            ||| now < state.last_seen + limiter.ban
        },
{
}

/// A failure is counted on top of what its source failed before within the window; the
/// first failure of a source, while there is room, is its first.
pub proof fn law_each_failure_counts_once(
    limiter: LimiterModel,
    after: Map<Seq<char>, FailureWindow>,
    source: Seq<char>,
    now: u128,
    tipped: bool,
)
    requires
        counted(limiter, after, source, now, tipped),
        limiter.sources.dom().finite(),
        limiter.limit > 1,
    ensures
        ({
            let known = limiter.sources[source];
            limiter.sources.contains_key(source) && known.window_start <= now && known.last_seen
                <= now && now < known.window_start + limiter.window && now < known.last_seen
                + limiter.window && known.failures < u32::MAX ==> if known.failures + 1
                >= limiter.limit {
                tipped
            } else {
                &&& !tipped
                &&& after.contains_key(source)
                &&& after[source].failures == known.failures + 1
                &&& after[source].window_start == known.window_start
                &&& after[source].last_seen == now
            }
        }),
        !limiter.sources.contains_key(source) && limiter.sources.dom().len() < 4096 ==> {
            &&& limiter.window > 0 ==> !tipped
            &&& after.contains_key(source)
            &&& after[source].failures == 1
            &&& after[source].window_start == now
            &&& after[source].banned_until is None
        },
{
    let live = remembered(limiter, now);
    assert(live.dom().subset_of(limiter.sources.dom()));
    vstd::set_lib::lemma_len_subset(live.dom(), limiter.sources.dom());
}

/// A source that is still worth remembering is forgotten only to make room, and only if
/// it is under no ban and no other such source was seen longer ago.
pub proof fn law_only_the_stalest_makes_room(
    limiter: LimiterModel,
    after: Map<Seq<char>, FailureWindow>,
    source: Seq<char>,
    gone: Seq<char>,
    other: Seq<char>,
    now: u128,
    tipped: bool,
)
    requires
        counted(limiter, after, source, now, tipped),
        limiter.sources.contains_key(gone) && limiter.sources.contains_key(other),
        limiter.sources[gone].last_seen <= now && now < limiter.sources[gone].last_seen
            + limiter.window,
        limiter.sources[other].last_seen <= now && now < limiter.sources[other].last_seen
            + limiter.window,
        !after.contains_key(gone),
    ensures
        limiter.sources[gone].banned_until matches Some(until) ==> until <= now,
        limiter.sources[gone].last_seen <= limiter.sources[other].last_seen || (
        limiter.sources[other].banned_until is Some && now < limiter.sources[other].banned_until->0),
        other != gone && other != source ==> after.contains_key(other) && after[other]
            == limiter.sources[other],
{
    let live = remembered(limiter, now);
    assert(live.contains_key(gone) && live.contains_key(other));
}

/// Among finitely many sources one was seen no later than any other.
proof fn lemma_one_is_stalest(sources: Map<Seq<char>, FailureWindow>, keys: Set<Seq<char>>) -> (stalest: Seq<
    char,
>)
    requires
        keys.finite(),
        keys.len() > 0,
    ensures
        keys.contains(stalest),
        forall|other: Seq<char>| #[trigger]
            keys.contains(other) ==> sources[stalest].last_seen <= sources[other].last_seen,
    decreases keys.len(),
{
    let one = keys.choose();
    let rest = keys.remove(one);
    if rest.len() == 0 {
        assert forall|other: Seq<char>| #[trigger] keys.contains(other) implies other == one by {
            if other != one {
                assert(rest.contains(other));
            }
        }
        one
    } else {
        let found = lemma_one_is_stalest(sources, rest);
        let stalest = if sources[one].last_seen < sources[found].last_seen {
            one
        } else {
            found
        };
        assert forall|other: Seq<char>| #[trigger] keys.contains(other) implies sources[stalest].last_seen
            <= sources[other].last_seen by {
            if other != one {
                assert(rest.contains(other));
            }
        }
        stalest
    }
}

/// A failure goes uncounted only where every slot is taken by a source under an active ban:
/// as long as one that is not banned can make room, a new source is put on record.
pub proof fn law_room_is_made_for_a_new_source(
    limiter: LimiterModel,
    after: Map<Seq<char>, FailureWindow>,
    source: Seq<char>,
    other: Seq<char>,
    now: u128,
    tipped: bool,
)
    requires
        counted(limiter, after, source, now, tipped),
        limiter.sources.dom().finite(),
        limiter.sources.contains_key(other),
        limiter.sources[other].last_seen <= now < limiter.sources[other].last_seen + limiter.window,
        limiter.sources[other].banned_until matches Some(until) ==> until <= now,
    ensures
        after.contains_key(source),
        after[source].last_seen == now,
{
    let live = remembered(limiter, now);
    assert(live.dom().subset_of(limiter.sources.dom()));
    vstd::set_lib::lemma_len_subset(live.dom(), limiter.sources.dom());
    let free = live.dom().filter(|key: Seq<char>| !live[key].banned(now));
    assert(live.contains_key(other));
    assert(free.contains(other));
    let stalest = lemma_one_is_stalest(live, free);
    assert forall|key: Seq<char>| #[trigger]
        live.contains_key(key) && !live[key].banned(now) implies live[stalest].last_seen
        <= live[key].last_seen by {
        assert(free.contains(key));
    }
    assert(may_go(live, stalest, now));
}

} // verus!

//! What a session's child is started with.
use crate::config::env_view;
use crate::killdomain::KillDomainTier;
use crate::order::{
    ascending, comes_before, law_ascending_list_is_unique, lemma_less_irreflexive,
    lemma_less_total, lemma_less_transitive, text_less,
};
use crate::session::WindowSize;
use crate::text::{has_prefix, same_text};
use crate::SessionName;
use vstd::prelude::*;

verus! {

/// Environment variables a PTY child may inherit. Everything else is dropped:
/// `OPENAB_*`, cloud credentials, and platform tokens must never reach a shell the
/// operator handed to a human.
pub const ENV_ALLOWLIST: [&'static str; 6] = ["TERM", "LANG", "PATH", "HOME", "USER", "SHELL"];

/// Locale variables are allowlisted by prefix (`LC_ALL`, `LC_CTYPE`, ...).
pub const ENV_ALLOWLIST_PREFIXES: [&'static str; 1] = ["LC_"];

/// The terminal type a child gets where none is inherited.
pub const DEFAULT_TERM: &'static str = "xterm-256color";

/// Whether a child may inherit this variable.
pub open spec fn inheritable(key: Seq<char>) -> bool {
    ||| exists|i: int| 0 <= i < 6 && key == (#[trigger] ENV_ALLOWLIST@[i])@
    ||| exists|i: int|
        0 <= i < 1 && (#[trigger] ENV_ALLOWLIST_PREFIXES@[i])@.is_prefix_of(key)
}

fn may_inherit(key: &str) -> (allowed: bool)
    ensures
        allowed == inheritable(key@),
{
    let mut i: usize = 0;
    while i < 6
        invariant
            0 <= i <= 6,
            forall|k: int| 0 <= k < i ==> key@ != (#[trigger] ENV_ALLOWLIST@[k])@,
        decreases 6 - i,
    {
        if same_text(key, ENV_ALLOWLIST[i]) {
            return true;
        }
        i += 1;
    }
    has_prefix(key, ENV_ALLOWLIST_PREFIXES[0])
}

/// The keys of a list of variables.
pub open spec fn keys(env: Seq<(Seq<char>, Seq<char>)>) -> Seq<Seq<char>> {
    Seq::new(env.len(), |i: int| env[i].0)
}

/// Whether a variable stands in a list under this name.
pub open spec fn has_key(env: Seq<(Seq<char>, Seq<char>)>, key: Seq<char>) -> bool {
    exists|i: int| 0 <= i < env.len() && (#[trigger] env[i]).0 == key
}

/// Whether `kept` is what a child inherits of `source`: every inheritable variable
/// once, in order of name, with the first of its values in text order, and nothing
/// else.
pub open spec fn inherits(
    kept: Seq<(Seq<char>, Seq<char>)>,
    source: Seq<(Seq<char>, Seq<char>)>,
) -> bool {
    &&& ascending(keys(kept))
    &&& forall|i: int| 0 <= i < kept.len() ==> inheritable((#[trigger] kept[i]).0)
    &&& forall|i: int| 0 <= i < kept.len() ==> source.contains(#[trigger] kept[i])
    &&& forall|i: int, j: int|
        0 <= i < kept.len() && 0 <= j < source.len() && (#[trigger] kept[i]).0 == (
        #[trigger] source[j]).0 ==> !text_less(source[j].1, kept[i].1)
    &&& forall|j: int|
        0 <= j < source.len() && inheritable((#[trigger] source[j]).0) ==> has_key(
            kept,
            source[j].0,
        )
}

/// The child's environment: what it inherits, and a terminal type and a home where
/// it inherits none.
pub open spec fn completed(
    kept: Seq<(Seq<char>, Seq<char>)>,
    home: Seq<char>,
    term: Seq<char>,
) -> Seq<(Seq<char>, Seq<char>)> {
    let with_term = if has_key(kept, "TERM"@) {
        kept
    } else {
        kept.push(("TERM"@, term))
    };
    if has_key(with_term, "HOME"@) {
        with_term
    } else {
        with_term.push(("HOME"@, home))
    }
}

fn holds_key(env: &Vec<(String, String)>, key: &str) -> (found: bool)
    ensures
        found == has_key(env_view(env@), key@),
{
    let mut i: usize = 0;
    while i < env.len()
        invariant
            0 <= i <= env@.len(),
            forall|k: int| 0 <= k < i ==> (#[trigger] env_view(env@)[k]).0 != key@,
        decreases env@.len() - i,
    {
        if same_text(env[i].0.as_str(), key) {
            assert(env_view(env@)[i as int].0 == key@);
            return true;
        }
        i += 1;
    }
    false
}

/// A list that grew by a variable under a new name, put in its place.
proof fn lemma_inherits_insert(
    kept: Seq<(Seq<char>, Seq<char>)>,
    source: Seq<(Seq<char>, Seq<char>)>,
    at: int,
    next: (Seq<char>, Seq<char>),
)
    requires
        inherits(kept, source),
        inheritable(next.0),
        0 <= at <= kept.len(),
        forall|k: int| 0 <= k < at ==> text_less((#[trigger] kept[k]).0, next.0),
        at < kept.len() ==> text_less(next.0, kept[at].0),
    ensures
        inherits(kept.insert(at, next), source.push(next)),
{
    let grown = kept.insert(at, next);
    let all = source.push(next);
    assert forall|k: int| at <= k < kept.len() implies text_less(
        next.0,
        (#[trigger] kept[k]).0,
    ) by {
        if k > at {
            assert(text_less(keys(kept)[at], keys(kept)[k]));
            lemma_less_transitive(next.0, kept[at].0, kept[k].0);
        }
    }
    assert forall|i: int, j: int| 0 <= i < j < grown.len() implies text_less(
        #[trigger] keys(grown)[i],
        #[trigger] keys(grown)[j],
    ) by {
        let oi = if i < at {
            i
        } else {
            i - 1
        };
        let oj = if j < at {
            j
        } else {
            j - 1
        };
        if i != at && j != at {
            assert(text_less(keys(kept)[oi], keys(kept)[oj]));
        } else if i == at {
            assert(text_less(next.0, kept[oj].0));
        } else {
            assert(text_less(kept[oi].0, next.0));
        }
    }
    assert forall|k: int| 0 <= k < kept.len() implies (#[trigger] kept[k]).0 != next.0 by {
        lemma_less_irreflexive(next.0);
    }
    assert(all[source.len() as int] == next);
    assert forall|i: int| 0 <= i < grown.len() implies all.contains(#[trigger] grown[i]) by {
        if i != at {
            let o = if i < at {
                i
            } else {
                i - 1
            };
            assert(source.contains(kept[o]));
            let j = choose|j: int| 0 <= j < source.len() && source[j] == kept[o];
            assert(all[j] == grown[i]);
        }
    }
    assert forall|i: int| 0 <= i < grown.len() implies inheritable((#[trigger] grown[i]).0) by {
        if i != at {
            let o = if i < at {
                i
            } else {
                i - 1
            };
            assert(inheritable(kept[o].0));
        }
    }
    assert forall|i: int, j: int|
        0 <= i < grown.len() && 0 <= j < all.len() && (#[trigger] grown[i]).0 == (
        #[trigger] all[j]).0 implies !text_less(all[j].1, grown[i].1) by {
        let o = if i < at {
            i
        } else {
            i - 1
        };
        if i == at {
            if j < source.len() {
                assert(has_key(kept, source[j].0));
                let k = choose|k: int| 0 <= k < kept.len() && (#[trigger] kept[k]).0 == source[j].0;
                assert(kept[k].0 == next.0);
            } else {
                lemma_less_irreflexive(next.1);
            }
        } else {
            assert(kept[o] == grown[i]);
            if j < source.len() {
                assert(all[j] == source[j]);
            }
        }
    }
    assert forall|j: int| 0 <= j < all.len() && inheritable((#[trigger] all[j]).0) implies has_key(
        grown,
        all[j].0,
    ) by {
        if j < source.len() {
            assert(all[j] == source[j]);
            let k = choose|k: int| 0 <= k < kept.len() && (#[trigger] kept[k]).0 == source[j].0;
            let g = if k < at {
                k
            } else {
                k + 1
            };
            assert(grown[g] == kept[k]);
        } else {
            assert(grown[at] == next);
        }
    }
}

/// A list that met a variable it holds already, and kept the lesser value.
proof fn lemma_inherits_lower(
    kept: Seq<(Seq<char>, Seq<char>)>,
    source: Seq<(Seq<char>, Seq<char>)>,
    at: int,
    next: (Seq<char>, Seq<char>),
)
    requires
        inherits(kept, source),
        0 <= at < kept.len(),
        kept[at].0 == next.0,
    ensures
        text_less(next.1, kept[at].1) ==> inherits(kept.update(at, next), source.push(next)),
        !text_less(next.1, kept[at].1) ==> inherits(kept, source.push(next)),
{
    let all = source.push(next);
    let lowered = kept.update(at, next);
    assert(inheritable(kept[at].0));
    assert(all[source.len() as int] == next);
    assert forall|i: int| 0 <= i < kept.len() implies all.contains(#[trigger] kept[i]) by {
        let j = choose|j: int| 0 <= j < source.len() && source[j] == kept[i];
        assert(all[j] == kept[i]);
    }
    assert forall|i: int| 0 <= i < lowered.len() implies all.contains(#[trigger] lowered[i]) by {
        if i != at {
            assert(all.contains(kept[i]));
        }
    }
    assert(keys(lowered) =~= keys(kept));
    assert forall|i: int| 0 <= i < kept.len() && i != at implies (#[trigger] kept[i]).0
        != next.0 by {
        lemma_less_irreflexive(next.0);
        if i < at {
            assert(text_less(keys(kept)[i], keys(kept)[at]));
        } else {
            assert(text_less(keys(kept)[at], keys(kept)[i]));
        }
    }
    if text_less(next.1, kept[at].1) {
        assert forall|i: int, j: int|
            0 <= i < lowered.len() && 0 <= j < all.len() && (#[trigger] lowered[i]).0 == (
            #[trigger] all[j]).0 implies !text_less(all[j].1, lowered[i].1) by {
            if i == at {
                if j == source.len() {
                    lemma_less_irreflexive(next.1);
                } else if text_less(source[j].1, next.1) {
                    lemma_less_transitive(source[j].1, next.1, kept[at].1);
                }
            } else {
                assert(lowered[i] == kept[i]);
                assert(j < source.len());
                assert(all[j] == source[j]);
            }
        }
        assert forall|i: int| 0 <= i < lowered.len() implies inheritable(
            (#[trigger] lowered[i]).0,
        ) by {
            assert(inheritable(kept[i].0));
        }
        assert forall|j: int|
            0 <= j < all.len() && inheritable((#[trigger] all[j]).0) implies has_key(
            lowered,
            all[j].0,
        ) by {
            if j < source.len() {
                assert(all[j] == source[j]);
                let k = choose|k: int|
                    0 <= k < kept.len() && (#[trigger] kept[k]).0 == source[j].0;
                assert(lowered[k].0 == kept[k].0);
            } else {
                assert(lowered[at].0 == next.0);
            }
        }
    } else {
        assert forall|i: int, j: int|
            0 <= i < kept.len() && 0 <= j < all.len() && (#[trigger] kept[i]).0 == (
            #[trigger] all[j]).0 implies !text_less(all[j].1, kept[i].1) by {
            if j < source.len() {
                assert(all[j] == source[j]);
            } else {
                assert(i == at);
            }
        }
        assert forall|j: int|
            0 <= j < all.len() && inheritable((#[trigger] all[j]).0) implies has_key(
            kept,
            all[j].0,
        ) by {
            if j < source.len() {
                assert(all[j] == source[j]);
            } else {
                assert(kept[at].0 == next.0);
            }
        }
    }
}

/// A variable that may not be inherited changes nothing.
proof fn lemma_inherits_skip(
    kept: Seq<(Seq<char>, Seq<char>)>,
    source: Seq<(Seq<char>, Seq<char>)>,
    next: (Seq<char>, Seq<char>),
)
    requires
        inherits(kept, source),
        !inheritable(next.0),
    ensures
        inherits(kept, source.push(next)),
{
    let all = source.push(next);
    assert forall|i: int| 0 <= i < kept.len() implies all.contains(#[trigger] kept[i]) by {
        let j = choose|j: int| 0 <= j < source.len() && source[j] == kept[i];
        assert(all[j] == kept[i]);
    }
    assert forall|i: int, j: int|
        0 <= i < kept.len() && 0 <= j < all.len() && (#[trigger] kept[i]).0 == (
        #[trigger] all[j]).0 implies !text_less(all[j].1, kept[i].1) by {
        assert(inheritable(kept[i].0));
        assert(all[j] == source[j]);
    }
    assert forall|j: int| 0 <= j < all.len() && inheritable((#[trigger] all[j]).0) implies has_key(
        kept,
        all[j].0,
    ) by {
        assert(all[j] == source[j]);
    }
}

/// Build the child's environment from an allowlist.
pub fn child_env(source: Vec<(String, String)>, home: &str, size_term: Option<&str>) -> (env: Vec<
    (String, String),
>)
    ensures
        exists|kept: Seq<(Seq<char>, Seq<char>)>| #[trigger]
            inherits(kept, env_view(source@)) && env_view(env@) == completed(
                kept,
                home@,
                match size_term {
                    Some(term) => term@,
                    None => DEFAULT_TERM@,
                },
            ),
{
    let mut env: Vec<(String, String)> = Vec::new();
    let mut i: usize = 0;
    proof {
        assert(env_view(env@) =~= Seq::empty());
        assert(env_view(source@).take(0) =~= Seq::empty());
    }
    while i < source.len()
        invariant
            0 <= i <= source@.len(),
            inherits(env_view(env@), env_view(source@).take(i as int)),
        decreases source@.len() - i,
    {
        let ghost kept = env_view(env@);
        let ghost seen = env_view(source@).take(i as int);
        let ghost next = env_view(source@)[i as int];
        assert(env_view(source@).take(i + 1) =~= seen.push(next));
        let key = source[i].0.as_str();
        let value = source[i].1.as_str();
        if may_inherit(key) {
            let mut at: usize = 0;
            while at < env.len() && comes_before(env[at].0.as_str(), key)
                invariant
                    0 <= at <= env@.len(),
                    kept == env_view(env@),
                    next.0 == key@,
                    forall|k: int| 0 <= k < at ==> text_less((#[trigger] kept[k]).0, next.0),
                decreases env@.len() - at,
            {
                assert(kept[at as int].0 == env@[at as int].0@);
                at += 1;
            }
            if at < env.len() && same_text(env[at].0.as_str(), key) {
                proof {
                    assert(kept[at as int].0 == next.0);
                    lemma_inherits_lower(kept, seen, at as int, next);
                }
                if comes_before(value, env[at].1.as_str()) {
                    env.set(at, (key.to_owned(), value.to_owned()));
                    assert(env_view(env@) =~= kept.update(at as int, next));
                }
            } else {
                proof {
                    if at < env@.len() {
                        assert(kept[at as int].0 == env@[at as int].0@);
                        lemma_less_total(kept[at as int].0, next.0);
                    }
                    lemma_inherits_insert(kept, seen, at as int, next);
                }
                env.insert(at, (key.to_owned(), value.to_owned()));
                assert(env_view(env@) =~= kept.insert(at as int, next));
            }
        } else {
            proof {
                lemma_inherits_skip(kept, seen, next);
            }
        }
        i += 1;
    }
    let ghost kept = env_view(env@);
    assert(env_view(source@).take(i as int) =~= env_view(source@));
    let term = match size_term {
        Some(term) => term,
        None => DEFAULT_TERM,
    };
    if !holds_key(&env, "TERM") {
        env.push(("TERM".to_owned(), term.to_owned()));
        assert(env_view(env@) =~= kept.push(("TERM"@, term@)));
    }
    let ghost with_term = env_view(env@);
    if !holds_key(&env, "HOME") {
        env.push(("HOME".to_owned(), home.to_owned()));
        assert(env_view(env@) =~= with_term.push(("HOME"@, home@)));
    }
    env
}

/// No variable reaches a child but those on the allowlist: what the source holds
/// under any other name is not passed on.
pub proof fn law_child_env_is_an_allowlist(
    kept: Seq<(Seq<char>, Seq<char>)>,
    source: Seq<(Seq<char>, Seq<char>)>,
    home: Seq<char>,
    term: Seq<char>,
    i: int,
)
    requires
        inherits(kept, source),
        0 <= i < completed(kept, home, term).len(),
    ensures
        inheritable(completed(kept, home, term)[i].0),
        source.contains(completed(kept, home, term)[i]) || completed(kept, home, term)[i] == (
            "TERM"@,
            term,
        ) || completed(kept, home, term)[i] == ("HOME"@, home),
{
    assert(inheritable("TERM"@)) by {
        assert(ENV_ALLOWLIST@[0]@ == "TERM"@);
    }
    assert(inheritable("HOME"@)) by {
        assert(ENV_ALLOWLIST@[3]@ == "HOME"@);
    }
    let all = completed(kept, home, term);
    if i < kept.len() {
        assert(all[i] == kept[i]);
    }
}

/// What a child inherits is settled by the source alone.
pub proof fn law_inheritance_is_settled(
    kept: Seq<(Seq<char>, Seq<char>)>,
    other: Seq<(Seq<char>, Seq<char>)>,
    source: Seq<(Seq<char>, Seq<char>)>,
)
    requires
        inherits(kept, source),
        inherits(other, source),
    ensures
        kept == other,
{
    lemma_same_keys(kept, other, source);
    lemma_same_keys(other, kept, source);
    assert(keys(kept).to_set() =~= keys(other).to_set());
    law_ascending_list_is_unique(keys(kept), keys(other));
    assert forall|i: int| 0 <= i < kept.len() implies kept[i] == other[i] by {
        assert(keys(kept)[i] == keys(other)[i]);
        let j = choose|j: int| 0 <= j < source.len() && source[j] == kept[i];
        let k = choose|k: int| 0 <= k < source.len() && source[k] == other[i];
        assert(source.contains(kept[i]) && source.contains(other[i]));
        assert(other[i].0 == source[j].0);
        assert(kept[i].0 == source[k].0);
        lemma_less_total(kept[i].1, other[i].1);
    }
    assert(kept.len() == keys(kept).len());
    assert(other.len() == keys(other).len());
    assert(kept =~= other);
}

proof fn lemma_same_keys(
    kept: Seq<(Seq<char>, Seq<char>)>,
    other: Seq<(Seq<char>, Seq<char>)>,
    source: Seq<(Seq<char>, Seq<char>)>,
)
    requires
        inherits(kept, source),
        inherits(other, source),
    ensures
        forall|key: Seq<char>| #[trigger]
            keys(kept).to_set().contains(key) ==> keys(other).to_set().contains(key),
{
    assert forall|key: Seq<char>| #[trigger] keys(kept).to_set().contains(key) implies keys(
        other,
    ).to_set().contains(key) by {
        let i = choose|i: int| 0 <= i < keys(kept).len() && keys(kept)[i] == key;
        assert(source.contains(kept[i]));
        let j = choose|j: int| 0 <= j < source.len() && source[j] == kept[i];
        assert(inheritable(source[j].0));
        let k = choose|k: int| 0 <= k < other.len() && (#[trigger] other[k]).0 == source[j].0;
        assert(keys(other)[k] == key);
    }
}

/// A child always has a terminal type and a home.
pub proof fn law_child_has_term_and_home(
    kept: Seq<(Seq<char>, Seq<char>)>,
    home: Seq<char>,
    term: Seq<char>,
)
    ensures
        has_key(completed(kept, home, term), "TERM"@),
        has_key(completed(kept, home, term), "HOME"@),
{
    let with_term = if has_key(kept, "TERM"@) {
        kept
    } else {
        kept.push(("TERM"@, term))
    };
    if !has_key(kept, "TERM"@) {
        assert(with_term[kept.len() as int].0 == "TERM"@);
    }
    let all = completed(kept, home, term);
    let k = choose|k: int| 0 <= k < with_term.len() && (#[trigger] with_term[k]).0 == "TERM"@;
    assert(all[k].0 == "TERM"@);
    if !has_key(with_term, "HOME"@) {
        assert(all[with_term.len() as int].0 == "HOME"@);
    }
}

/// What the manager asks the spawner for. The command comes from operator
/// configuration; there is no path by which a client supplies it.
#[derive(Clone, Debug)]
pub struct SpawnRequest {
    pub session: SessionName,
    pub command: String,
    pub cwd: String,
    pub env: Vec<(String, String)>,
    pub size: WindowSize,
}

/// Why a spawner without a pre-`execv` hook starts nothing in Tier 2.
pub const SPAWN_REFUSAL: &'static str = "tier 2 containment requires a pre-execv capable spawner; portable-pty owns its pre-exec closure";

/// Whether a spawner without a pre-`execv` hook refuses a child. In Tier 2 it fails
/// closed rather than migrate the child after `exec`: by then code of the session
/// already ran outside its cgroup.
pub fn spawn_refusal(tier: KillDomainTier) -> (refused: bool)
    ensures
        refused == (tier == KillDomainTier::Tier2GuaranteedCgroup),
{
    tier == KillDomainTier::Tier2GuaranteedCgroup
}

/// The variables a child may inherit are these, and the locale.
pub proof fn law_inheritable_variables_are_these(key: Seq<char>)
    ensures
        inheritable(key) <==> {
            ||| key == "TERM"@
            ||| key == "LANG"@
            ||| key == "PATH"@
            ||| key == "HOME"@
            ||| key == "USER"@
            ||| key == "SHELL"@
            ||| "LC_"@.is_prefix_of(key)
        },
{
    assert(ENV_ALLOWLIST@[0]@ == "TERM"@);
    assert(ENV_ALLOWLIST@[1]@ == "LANG"@);
    assert(ENV_ALLOWLIST@[2]@ == "PATH"@);
    assert(ENV_ALLOWLIST@[3]@ == "HOME"@);
    assert(ENV_ALLOWLIST@[4]@ == "USER"@);
    assert(ENV_ALLOWLIST@[5]@ == "SHELL"@);
    assert(ENV_ALLOWLIST_PREFIXES@[0]@ == "LC_"@);
}

/// What a child inherits stands first in its environment, as it is; only what it lacks is
/// added.
pub proof fn law_inherited_variables_are_kept(
    kept: Seq<(Seq<char>, Seq<char>)>,
    home: Seq<char>,
    term: Seq<char>,
)
    ensures
        ({
            let all = completed(kept, home, term);
            let lacks_term = forall|i: int|
                0 <= i < kept.len() ==> (#[trigger] kept[i]).0 != "TERM"@;
            let lacks_home = forall|i: int|
                0 <= i < kept.len() ==> (#[trigger] kept[i]).0 != "HOME"@;
            &&& kept.is_prefix_of(all)
            &&& all.skip(kept.len() as int) == if lacks_term && lacks_home {
                seq![("TERM"@, term), ("HOME"@, home)]
            } else if lacks_term {
                seq![("TERM"@, term)]
            } else if lacks_home {
                seq![("HOME"@, home)]
            } else {
                Seq::empty()
            }
        }),
{
    reveal_strlit("TERM");
    reveal_strlit("HOME");
    assert("TERM"@[0] == 'T' && "HOME"@[0] == 'H');
    let with_term = kept.push(("TERM"@, term));
    if !has_key(kept, "TERM"@) {
        if has_key(with_term, "HOME"@) {
            let i = choose|i: int| 0 <= i < with_term.len() && (#[trigger] with_term[i]).0 == "HOME"@;
            assert(kept[i].0 == "HOME"@);
        }
        if has_key(kept, "HOME"@) {
            let i = choose|i: int| 0 <= i < kept.len() && (#[trigger] kept[i]).0 == "HOME"@;
            assert(with_term[i].0 == "HOME"@);
        }
    }
    let all = completed(kept, home, term);
    assert(all.take(kept.len() as int) =~= kept);
}

} // verus!

use vstd::prelude::*;

use crate::paths::{expand_home, expanded, has_home_marker, home_dir, join_path, joined, starts_with_home_marker};

verus! {

/// The platform family whose link semantics a run follows.
#[derive(Clone, Copy, Debug, PartialEq, Eq, Hash, Structural)]
pub enum Environment {
    Unix,
    Windows,
}

/// One destination or several.
#[derive(Clone, Debug, PartialEq, Eq)]
pub enum Destination {
    Single(String),
    Multi(Vec<String>),
}

/// Where a link goes: the same destinations everywhere, or destinations per
/// platform. In a well-formed target a platform appears at most once among
/// the entries (`target_wf`); a lookup takes the first entry of the platform.
#[derive(Clone, Debug, PartialEq, Eq)]
pub enum Target {
    Unified(Destination),
    Platform(Vec<(Environment, Destination)>),
}

/// One entry of a linkfile: a source relative to the linkfile's directory
/// and where links to it go.
#[derive(Clone, Debug, PartialEq, Eq)]
pub struct Link {
    pub source: String,
    pub target: Target,
}

/// The entries of a linkfile, in order.
#[derive(Clone, Debug, PartialEq, Eq)]
pub struct Linkfile {
    pub links: Vec<Link>,
}

/// A link entry resolved to paths: the source joined to the root, and each
/// destination with its home marker expanded.
#[derive(Clone, Debug)]
pub struct ResolvedLink {
    pub source: String,
    pub targets: Vec<String>,
}

pub open spec fn string_views(v: Seq<String>) -> Seq<Seq<char>> {
    v.map_values(|s: String| s@)
}

pub open spec fn destination_paths(d: Destination) -> Seq<Seq<char>> {
    match d {
        Destination::Single(s) => seq![s@],
        Destination::Multi(v) => string_views(v@),
    }
}

/// The destination of the first entry for `env`, if any.
pub open spec fn platform_lookup(entries: Seq<(Environment, Destination)>, env: Environment) -> Option<
    Destination,
>
    decreases entries.len(),
{
    if entries.len() == 0 {
        None
    } else if entries[0].0 == env {
        Some(entries[0].1)
    } else {
        platform_lookup(entries.drop_first(), env)
    }
}

/// No platform appears twice among the entries.
pub open spec fn distinct_platforms(entries: Seq<(Environment, Destination)>) -> bool {
    forall|i: int, j: int| 0 <= i < j < entries.len() ==> entries[i].0 != entries[j].0
}

/// A target is well formed when its entries name each platform at most once.
pub open spec fn target_wf(t: Target) -> bool {
    match t {
        Target::Unified(_) => true,
        Target::Platform(entries) => distinct_platforms(entries@),
    }
}

/// In entries that name each platform at most once, the lookup finds the
/// entry of the platform wherever it stands.
pub proof fn lemma_platform_lookup_unique(entries: Seq<(Environment, Destination)>, env: Environment, i: int)
    requires
        distinct_platforms(entries),
        0 <= i < entries.len(),
        entries[i].0 == env,
    ensures
        platform_lookup(entries, env) == Some(entries[i].1),
    decreases i,
{
    if i > 0 {
        assert(entries[0].0 != entries[i].0);
        let rest = entries.drop_first();
        assert(rest[i - 1] == entries[i]);
        assert(distinct_platforms(rest)) by {
            assert forall|a: int, b: int| 0 <= a < b < rest.len() implies rest[a].0 != rest[b].0 by {
                assert(rest[a] == entries[a + 1] && rest[b] == entries[b + 1]);
            }
        }
        lemma_platform_lookup_unique(rest, env, i - 1);
    }
}

/// The destinations that a target names for `env`; none when `env` has no entry.
pub open spec fn selected_destinations(env: Environment, t: Target) -> Seq<Seq<char>> {
    match t {
        Target::Unified(d) => destination_paths(d),
        Target::Platform(entries) => match platform_lookup(entries@, env) {
            Some(d) => destination_paths(d),
            None => Seq::empty(),
        },
    }
}

pub open spec fn option_view(o: Option<String>) -> Option<Seq<char>> {
    match o {
        Some(s) => Some(s@),
        None => None,
    }
}

/// A destination after home expansion; none when it needs a home directory
/// and none is known.
pub open spec fn resolved_destination(dest: Seq<char>, home: Option<Seq<char>>) -> Option<Seq<char>> {
    if has_home_marker(dest) {
        match home {
            Some(h) => Some(expanded(dest, h)),
            None => None,
        }
    } else {
        Some(dest)
    }
}

pub open spec fn needs_home(ds: Seq<Seq<char>>) -> bool {
    exists|j: int| 0 <= j < ds.len() && has_home_marker(#[trigger] ds[j])
}

fn clone_strings(v: &Vec<String>) -> (r: Vec<String>)
    ensures
        r@ == v@,
{
    let mut r: Vec<String> = Vec::new();
    let mut i: usize = 0;
    while i < v.len()
        invariant
            0 <= i <= v.len(),
            r@ == v@.subrange(0, i as int),
        decreases v.len() - i,
    {
        r.push(v[i].clone());
        i = i + 1;
        assert(r@ =~= v@.subrange(0, i as int));
    }
    assert(v@.subrange(0, i as int) =~= v@);
    r
}

fn destination_strings(d: &Destination) -> (r: Vec<String>)
    ensures
        string_views(r@) == destination_paths(*d),
{
    match d {
        Destination::Single(s) => {
            let r = vec![s.clone()];
            assert(string_views(r@) =~= destination_paths(*d));
            r
        },
        Destination::Multi(v) => clone_strings(v),
    }
}

/// The destinations of a target for the platform `environment`, as written.
pub fn destinations_for(environment: Environment, target: &Target) -> (r: Vec<String>)
    ensures
        string_views(r@) == selected_destinations(environment, *target),
        target_wf(*target) ==> (target matches Target::Platform(entries) ==> forall|i: int|
            0 <= i < entries.len() && (#[trigger] entries[i]).0 == environment ==> string_views(r@)
                == destination_paths(entries[i].1)),
{
    proof {
        if let Target::Platform(entries) = target {
            if target_wf(*target) {
                assert forall|i: int|
                    0 <= i < entries.len() && (#[trigger] entries[i]).0 == environment implies selected_destinations(
                    environment,
                    *target,
                ) == destination_paths(entries[i].1) by {
                    lemma_platform_lookup_unique(entries@, environment, i);
                }
            }
        }
    }
    match target {
        Target::Unified(d) => destination_strings(d),
        Target::Platform(entries) => {
            let mut i: usize = 0;
            assert(entries@.subrange(0, entries.len() as int) =~= entries@);
            while i < entries.len()
                invariant
                    0 <= i <= entries.len(),
                    *target == Target::Platform(*entries),
                    platform_lookup(entries@, environment) == platform_lookup(
                        entries@.subrange(i as int, entries.len() as int),
                        environment,
                    ),
                decreases entries.len() - i,
            {
                let ghost rest = entries@.subrange(i as int, entries.len() as int);
                assert(rest.drop_first() =~= entries@.subrange(i + 1, entries.len() as int));
                assert(rest[0] == entries@[i as int]);
                if entries[i].0 == environment {
                    assert(platform_lookup(rest, environment) == Some(entries@[i as int].1));
                    let r = destination_strings(&entries[i].1);
                    return r;
                }
                i = i + 1;
            }
            let r: Vec<String> = Vec::new();
            assert(string_views(r@) =~= Seq::<Seq<char>>::empty());
            r
        },
    }
}

/// `rl` is `link` resolved for `env` against the directory `root` and the
/// home directory `home`.
pub open spec fn resolves_to(
    env: Environment,
    root: Seq<char>,
    link: Link,
    home: Option<Seq<char>>,
    rl: ResolvedLink,
) -> bool {
    let ds = selected_destinations(env, link.target);
    &&& rl.source@ == joined(root, link.source@)
    &&& rl.targets.len() == ds.len()
    &&& forall|j: int|
        0 <= j < ds.len() ==> resolved_destination(#[trigger] ds[j], home) == Some(rl.targets[j]@)
}

/// Each entry of `links` resolves to the record of `v` at its position.
pub open spec fn all_resolve_to(
    env: Environment,
    root: Seq<char>,
    links: Seq<Link>,
    home: Option<Seq<char>>,
    v: Seq<ResolvedLink>,
) -> bool {
    &&& v.len() == links.len()
    &&& forall|i: int| 0 <= i < links.len() ==> resolves_to(env, root, #[trigger] links[i], home, v[i])
}

/// Resolves one entry: its source against `root`, and each of its
/// destinations for `environment` against the home directory `home`. Gives
/// nothing when a destination needs a home directory and `home` is none.
pub fn resolve_link(environment: Environment, root: &String, link: &Link, home: &Option<String>) -> (r:
    Option<ResolvedLink>)
    ensures
        ({
            let ds = selected_destinations(environment, link.target);
            match r {
                None => home.is_none() && needs_home(ds),
                Some(rl) => resolves_to(environment, root@, *link, option_view(*home), rl),
            }
        }),
{
    let ghost ds = selected_destinations(environment, link.target);
    let dests = destinations_for(environment, &link.target);
    let mut targets: Vec<String> = Vec::new();
    let mut i: usize = 0;
    while i < dests.len()
        invariant
            0 <= i <= dests.len(),
            ds == selected_destinations(environment, link.target),
            string_views(dests@) == ds,
            targets.len() == i,
            forall|j: int|
                0 <= j < i ==> resolved_destination(#[trigger] ds[j], option_view(*home)) == Some(
                    targets[j]@,
                ),
        decreases dests.len() - i,
    {
        assert(ds[i as int] == dests[i as int]@);
        if starts_with_home_marker(dests[i].as_str()) {
            match home {
                Some(h) => targets.push(expand_home(&dests[i], h)),
                None => {
                    assert(has_home_marker(ds[i as int]));
                    assert(needs_home(ds));
                    return None;
                },
            }
        } else {
            targets.push(dests[i].clone());
        }
        i = i + 1;
    }
    Some(ResolvedLink { source: join_path(root, &link.source), targets })
}

/// Resolves every entry of a linkfile for `environment`, expanding the home
/// marker with the user's home directory, which is looked up once. Succeeds
/// whenever no destination needs a home directory; otherwise succeeds when
/// one is known.
pub fn resolve_links(environment: Environment, root: &String, links: &Vec<Link>) -> (r: Option<
    Vec<ResolvedLink>,
>)
    ensures
        (forall|i: int| 0 <= i < links.len() ==> !needs_home(
            selected_destinations(environment, #[trigger] links[i].target),
        )) ==> r is Some,
        r is None ==> exists|i: int|
            0 <= i < links.len() && needs_home(
                selected_destinations(environment, #[trigger] links[i].target),
            ),
        r matches Some(v) ==> exists|home: Option<Seq<char>>|
            #[trigger] all_resolve_to(environment, root@, links@, home, v@),
{
    let home = home_dir();
    let ghost h = option_view(home);
    let mut out: Vec<ResolvedLink> = Vec::new();
    let mut i: usize = 0;
    while i < links.len()
        invariant
            0 <= i <= links.len(),
            h == option_view(home),
            out.len() == i,
            forall|k: int| 0 <= k < i ==> resolves_to(environment, root@, #[trigger] links[k], h, out[k]),
        decreases links.len() - i,
    {
        match resolve_link(environment, root, &links[i], &home) {
            Some(rl) => out.push(rl),
            None => {
                assert(needs_home(selected_destinations(environment, links[i as int].target)));
                return None;
            },
        }
        i = i + 1;
    }
    assert(all_resolve_to(environment, root@, links@, h, out@));
    let r = Some(out);
    assert(r matches Some(v) && all_resolve_to(environment, root@, links@, h, v@));
    r
}

} // verus!

//! What a `--preview` run opens.

use vstd::prelude::*;
use crate::config::{Camera, Config, find_camera};
use crate::text::{cat, joined, join, owned, string_views};

verus! {

/// The enabled cameras, in order.
pub open spec fn enabled_of(cams: Seq<Camera>) -> Seq<Camera>
    decreases cams.len(),
{
    if cams.len() == 0 {
        cams
    } else {
        let r = enabled_of(cams.drop_last());
        if cams.last().enabled {
            r.push(cams.last())
        } else {
            r
        }
    }
}

/// The first `n` items of `s`, or all of them when there are fewer.
pub open spec fn first_n<A>(s: Seq<A>, n: usize) -> Seq<A> {
    if s.len() <= n {
        s
    } else {
        s.take(n as int)
    }
}

pub open spec fn camera_names(cams: Seq<Camera>) -> Seq<Seq<char>> {
    cams.map_values(|c: Camera| c.name@)
}

pub open spec fn no_defaults_message() -> Seq<char> {
    "--preview was given no camera names and no cameras are enabled in the config"@
}

pub open spec fn unknown_camera_message(cams: Seq<Camera>, name: Seq<char>) -> Seq<char> {
    "--preview names camera `"@ + name + "`, which is not in the config. Known cameras: "@
        + joined(camera_names(cams), ", "@)
}

/// The cameras named, in order, or the complaint about the first name not configured.
pub open spec fn resolve(cams: Seq<Camera>, names: Seq<Seq<char>>) -> Result<Seq<Camera>, Seq<char>>
    decreases names.len(),
{
    if names.len() == 0 {
        Ok(Seq::<Camera>::empty())
    } else {
        match resolve(cams, names.drop_last()) {
            Err(e) => Err(e),
            Ok(v) => match find_camera(cams, names.last()) {
                Some(c) => Ok(v.push(c)),
                None => Err(unknown_camera_message(cams, names.last())),
            },
        }
    }
}

/// The cameras a `--preview` run opens: the ones named, or by default the first
/// `max_popups` enabled ones.
pub open spec fn preview_spec(c: Config, requested: Seq<Seq<char>>) -> Result<Seq<Camera>, Seq<char>> {
    if requested.len() == 0 {
        let d = first_n(enabled_of(c.cameras@), c.popup.max_popups);
        if d.len() == 0 {
            Err(no_defaults_message())
        } else {
            Ok(d)
        }
    } else {
        resolve(c.cameras@, requested)
    }
}

pub open spec fn derefs(v: Seq<&Camera>) -> Seq<Camera> {
    v.map_values(|c: &Camera| *c)
}

/// Cameras a `--preview` run should open, in stack order.
///
/// An explicit name wins over `enabled = false`, since previewing a camera you have
/// switched off is exactly how you decide whether to switch it back on.
pub fn preview_targets<'a>(config: &'a Config, requested: &Vec<String>) -> (r: Result<Vec<&'a Camera>, String>)
    ensures
        match r {
            Ok(v) => preview_spec(*config, string_views(requested@)) == Ok::<Seq<Camera>, Seq<char>>(
                derefs(v@),
            ),
            Err(e) => preview_spec(*config, string_views(requested@)) == Err::<Seq<Camera>, Seq<char>>(
                e@,
            ),
        },
{
    let cams = &config.cameras;
    let n = cams.len();
    let max = config.popup.max_popups;
    if requested.len() == 0 {
        let mut d: Vec<&'a Camera> = Vec::new();
        let mut i: usize = 0;
        assert(cams@.take(0) =~= Seq::<Camera>::empty());
        assert(derefs(d@) =~= Seq::<Camera>::empty());
        while i < n
            invariant
                i <= n,
                n == cams@.len(),
                cams == &config.cameras,
                max == config.popup.max_popups,
                derefs(d@) == first_n(enabled_of(cams@.take(i as int)), max),
            decreases n - i,
        {
            let ghost e = enabled_of(cams@.take(i as int));
            assert(cams@.take(i as int + 1).drop_last() =~= cams@.take(i as int));
            assert(cams@.take(i as int + 1).last() == cams@[i as int]);
            if cams[i].enabled && d.len() < max {
                let ghost prev = derefs(d@);
                d.push(&cams[i]);
                assert(derefs(d@) =~= prev.push(cams@[i as int]));
                assert(derefs(d@) =~= first_n(e.push(cams@[i as int]), max));
            } else if cams[i].enabled {
                assert(first_n(e.push(cams@[i as int]), max) =~= first_n(e, max));
            }
            i = i + 1;
        }
        assert(cams@.take(n as int) =~= cams@);
        if d.len() == 0 {
            return Err(
                owned("--preview was given no camera names and no cameras are enabled in the config"),
            );
        }
        return Ok(d);
    }
    let m = requested.len();
    let ghost names = string_views(requested@);
    let mut found: Vec<&'a Camera> = Vec::new();
    let mut j: usize = 0;
    assert(names.take(0) =~= Seq::<Seq<char>>::empty());
    assert(derefs(found@) =~= Seq::<Camera>::empty());
    while j < m
        invariant
            j <= m,
            m == requested@.len(),
            n == config.cameras@.len(),
            names == string_views(requested@),
            resolve(config.cameras@, names.take(j as int)) == Ok::<Seq<Camera>, Seq<char>>(
                derefs(found@),
            ),
        decreases m - j,
    {
        assert(names.take(j as int + 1).drop_last() =~= names.take(j as int));
        assert(names.take(j as int + 1).last() == requested@[j as int]@);
        match config.camera(requested[j].as_str()) {
            Some(c) => {
                let ghost prev = derefs(found@);
                found.push(c);
                assert(derefs(found@) =~= prev.push(*c));
            },
            None => {
                let mut known: Vec<String> = Vec::new();
                let mut k: usize = 0;
                while k < n
                    invariant
                        k <= n,
                        n == config.cameras@.len(),
                        string_views(known@) == camera_names(config.cameras@.take(k as int)),
                    decreases n - k,
                {
                    let ghost prev = string_views(known@);
                    known.push(config.cameras[k].name.clone());
                    assert(string_views(known@) =~= camera_names(config.cameras@.take(k as int + 1))) by {
                        assert(string_views(known@) =~= prev.push(config.cameras@[k as int].name@));
                    }
                    k = k + 1;
                }
                assert(config.cameras@.take(n as int) =~= config.cameras@);
                let mut e = cat("--preview names camera `", requested[j].as_str());
                e.append("`, which is not in the config. Known cameras: ");
                e.append(join(&known, ", ").as_str());
                proof {
                    lemma_resolve_error_sticks(config.cameras@, names, j as int + 1);
                }
                return Err(e);
            },
        }
        j = j + 1;
    }
    assert(names.take(m as int) =~= names);
    Ok(found)
}

/// An error for the first `k` names is the error for all of them.
proof fn lemma_resolve_error_sticks(cams: Seq<Camera>, names: Seq<Seq<char>>, k: int)
    requires
        0 <= k <= names.len(),
        resolve(cams, names.take(k)) is Err,
    ensures
        resolve(cams, names) == resolve(cams, names.take(k)),
    decreases names.len() - k,
{
    if k < names.len() {
        assert(names.take(k + 1).drop_last() =~= names.take(k));
        lemma_resolve_error_sticks(cams, names, k + 1);
    } else {
        assert(names.take(k) =~= names);
    }
}


/// Camera `i` of `cams` is the first one named `name`.
pub open spec fn first_named(cams: Seq<Camera>, name: Seq<char>, i: int) -> bool {
    &&& 0 <= i < cams.len()
    &&& cams[i].name@ == name
    &&& forall|j: int| 0 <= j < i ==> #[trigger] cams[j].name@ != name
}

/// `cam` is the first camera of `cams` named `name`.
pub open spec fn first_camera_named(cams: Seq<Camera>, name: Seq<char>, cam: Camera) -> bool {
    exists|i: int| #[trigger] first_named(cams, name, i) && cam == cams[i]
}

/// When some camera is named `name`, the lookup finds the first such camera.
proof fn lemma_find_first(cams: Seq<Camera>, name: Seq<char>, i: int)
    requires
        0 <= i < cams.len(),
        cams[i].name@ == name,
    ensures
        exists|k: int| first_named(cams, name, k) && find_camera(cams, name) == Some(cams[k]),
    decreases cams.len(),
{
    if cams[0].name@ == name {
        assert(first_named(cams, name, 0));
    } else {
        let rest = cams.drop_first();
        assert(rest[i - 1] == cams[i]);
        lemma_find_first(rest, name, i - 1);
        let k = choose|k: int| first_named(rest, name, k) && find_camera(rest, name) == Some(rest[k]);
        assert forall|j: int| 0 <= j < k + 1 implies #[trigger] cams[j].name@ != name by {
            if j > 0 {
                assert(cams[j] == rest[j - 1]);
            }
        }
        assert(cams[k + 1] == rest[k]);
        assert(first_named(cams, name, k + 1));
    }
}

/// Naming cameras previews exactly those, one per name and in the order given, however
/// many there are: each is the first configured camera of that name, whether enabled or
/// not. Only the default list is capped at `max_popups`.
pub proof fn named_previews_follow_the_names(c: Config, names: Seq<Seq<char>>)
    requires
        names.len() > 0,
        forall|k: int|
            #![trigger names[k]]
            0 <= k < names.len() ==> exists|i: int|
                0 <= i < c.cameras@.len() && #[trigger] c.cameras@[i].name@ == names[k],
    ensures
        preview_spec(c, names) is Ok,
        preview_spec(c, names)->Ok_0.len() == names.len(),
        forall|k: int|
            0 <= k < names.len() ==> first_camera_named(
                c.cameras@,
                names[k],
                #[trigger] preview_spec(c, names)->Ok_0[k],
            ),
{
    lemma_named_resolve(c.cameras@, names);
}

proof fn lemma_named_resolve(cams: Seq<Camera>, names: Seq<Seq<char>>)
    requires
        forall|k: int|
            #![trigger names[k]]
            0 <= k < names.len() ==> exists|i: int|
                0 <= i < cams.len() && #[trigger] cams[i].name@ == names[k],
    ensures
        resolve(cams, names) is Ok,
        resolve(cams, names)->Ok_0.len() == names.len(),
        forall|k: int|
            0 <= k < names.len() ==> first_camera_named(
                cams,
                names[k],
                #[trigger] resolve(cams, names)->Ok_0[k],
            ),
    decreases names.len(),
{
    if names.len() > 0 {
        let init = names.drop_last();
        assert forall|k: int| #![trigger init[k]] 0 <= k < init.len() implies exists|i: int|
            0 <= i < cams.len() && #[trigger] cams[i].name@ == init[k] by {
            assert(init[k] == names[k]);
        }
        lemma_named_resolve(cams, init);
        let last = names.last();
        let n = names.len() - 1;
        let i = choose|i: int| 0 <= i < cams.len() && #[trigger] cams[i].name@ == names[n];
        lemma_find_first(cams, last, i);
        let k0 = choose|k: int| first_named(cams, last, k) && find_camera(cams, last) == Some(cams[k]);
        let v = resolve(cams, init)->Ok_0;
        let r = resolve(cams, names)->Ok_0;
        assert(r == v.push(cams[k0]));
        assert forall|k: int| 0 <= k < names.len() implies first_camera_named(
            cams,
            names[k],
            #[trigger] r[k],
        ) by {
            if k < n {
                assert(init[k] == names[k]);
                assert(r[k] == v[k]);
            } else {
                assert(first_named(cams, names[k], k0));
            }
        }
    }
}

} // verus!

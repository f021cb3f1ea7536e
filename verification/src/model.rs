//! A model of the filesystem, as far as renaming goes.
//!
//! The model is a map from paths to the files that are there. A move takes the
//! file at one path to another, replacing what was there; it fails, and
//! changes nothing, if there is no file to take. Nothing else touches the
//! model while a run is under way.

use vstd::prelude::*;

verus! {

/// The model after an attempt to move the file at `from` to `to`.
pub open spec fn move_file(fs: Map<Seq<char>, int>, from: Seq<char>, to: Seq<char>) -> Map<
    Seq<char>,
    int,
> {
    if fs.dom().contains(from) {
        fs.remove(from).insert(to, fs[from])
    } else {
        fs
    }
}

/// The model in which the files that were at `homes` in `base` are now at
/// `places`, one by one, and every other file of `base` is where it was.
pub open spec fn layout(base: Map<Seq<char>, int>, homes: Seq<Seq<char>>, places: Seq<Seq<char>>) -> Map<
    Seq<char>,
    int,
> {
    Map::new(
        |p: Seq<char>| places.contains(p) || (base.dom().contains(p) && !homes.contains(p)),
        |p: Seq<char>|
            if places.contains(p) {
                base[homes[places.index_of(p)]]
            } else {
                base[p]
            },
    )
}

/// Whether `places` can hold the files from `homes`: there are as many places
/// as homes, no place is used twice, every home has a file in `base`, and no
/// place is the path of a file of `base` that stays where it is.
pub open spec fn placed(base: Map<Seq<char>, int>, homes: Seq<Seq<char>>, places: Seq<Seq<char>>) -> bool {
    &&& homes.len() == places.len()
    &&& places.no_duplicates()
    &&& forall|k: int| 0 <= k < homes.len() ==> base.dom().contains(#[trigger] homes[k])
    &&& forall|k: int|
        0 <= k < places.len() ==> !base.dom().contains(#[trigger] places[k]) || homes.contains(
            places[k],
        )
}

/// With no file moved the model is the base.
pub proof fn lemma_layout_empty(base: Map<Seq<char>, int>)
    ensures
        layout(base, Seq::empty(), Seq::empty()) == base,
        placed(base, Seq::empty(), Seq::empty()),
{
    assert(layout(base, Seq::empty(), Seq::empty()) =~= base);
}

/// A file that is at home need not be counted among the moved ones.
pub proof fn lemma_layout_extend(
    base: Map<Seq<char>, int>,
    homes: Seq<Seq<char>>,
    places: Seq<Seq<char>>,
    home: Seq<char>,
)
    requires
        placed(base, homes, places),
        base.dom().contains(home),
        !homes.contains(home),
        !places.contains(home),
    ensures
        layout(base, homes.push(home), places.push(home)) == layout(base, homes, places),
        placed(base, homes.push(home), places.push(home)),
{
    let homes2 = homes.push(home);
    let places2 = places.push(home);
    let n = homes.len() as int;
    assert(places2[n] == home);
    assert(homes2[n] == home);
    assert forall|p: Seq<char>| places2.contains(p) <==> (places.contains(p) || p == home) by {
        if places.contains(p) {
            let k = places.index_of(p);
            assert(places2[k] == p);
        }
        if places2.contains(p) {
            let k = places2.index_of(p);
            if k < n {
                assert(places[k] == p);
            }
        }
    }
    assert forall|p: Seq<char>| homes2.contains(p) <==> (homes.contains(p) || p == home) by {
        if homes.contains(p) {
            let k = homes.index_of(p);
            assert(homes2[k] == p);
        }
        if homes2.contains(p) {
            let k = homes2.index_of(p);
            if k < n {
                assert(homes[k] == p);
            }
        }
    }
    assert forall|p: Seq<char>| places.contains(p) implies homes2[places2.index_of(p)]
        == homes[places.index_of(p)] by {
        let k = places.index_of(p);
        let k2 = places2.index_of(p);
        assert(places2[k] == p);
        assert(places2[k2] == p);
        if k2 == n {
            assert(false);
        }
        assert(places[k2] == p);
        assert(k == k2);
    }
    assert(homes2[places2.index_of(home)] == home) by {
        let k2 = places2.index_of(home);
        assert(places2[k2] == home);
        if k2 < n {
            assert(places[k2] == home);
        }
    }
    assert(layout(base, homes2, places2) =~= layout(base, homes, places));
    assert forall|k: int| 0 <= k < places2.len() implies !base.dom().contains(
        #[trigger] places2[k],
    ) || homes2.contains(places2[k]) by {
        if k < n {
            assert(places2[k] == places[k]);
        }
    }
}

/// Moving one of the files from its place to a free one gives the model in
/// which that file is at the new place.
pub proof fn lemma_layout_move(
    base: Map<Seq<char>, int>,
    homes: Seq<Seq<char>>,
    places: Seq<Seq<char>>,
    i: int,
    to: Seq<char>,
)
    requires
        placed(base, homes, places),
        0 <= i < places.len(),
        !places.contains(to),
        !base.dom().contains(to) || homes.contains(to),
    ensures
        layout(base, homes, places).dom().contains(places[i]),
        move_file(layout(base, homes, places), places[i], to) == layout(
            base,
            homes,
            places.update(i, to),
        ),
        placed(base, homes, places.update(i, to)),
{
    let before = layout(base, homes, places);
    let places2 = places.update(i, to);
    let after = layout(base, homes, places2);
    let from = places[i];
    assert(places.contains(from));
    assert(places2[i] == to);
    assert(places2.no_duplicates()) by {
        assert forall|a: int, b: int|
            0 <= a < places2.len() && 0 <= b < places2.len() && a != b implies places2[a]
            != places2[b] by {
            if a == i {
                assert(places[b] == places2[b]);
            } else if b == i {
                assert(places[a] == places2[a]);
            } else {
                assert(places[a] == places2[a]);
                assert(places[b] == places2[b]);
            }
        }
    }
    assert forall|p: Seq<char>| places2.contains(p) <==> (p == to || (places.contains(p) && p
        != from)) by {
        if places.contains(p) && p != from {
            let k = places.index_of(p);
            assert(places2[k] == p);
        }
        if places2.contains(p) && p != to {
            let k = places2.index_of(p);
            assert(places[k] == p);
            if p == from {
                assert(k == i);
            }
        }
    }
    assert forall|p: Seq<char>| places.contains(p) && p != from implies places2.index_of(p)
        == places.index_of(p) by {
        let k = places.index_of(p);
        let k2 = places2.index_of(p);
        assert(places2[k] == p);
        assert(places2[k2] == p);
        assert(k2 != i);
        assert(places[k2] == p);
    }
    assert(places.index_of(from) == i);
    assert(places2.index_of(to) == i);
    assert(move_file(before, from, to) =~= after);
    assert forall|k: int| 0 <= k < places2.len() implies !base.dom().contains(
        #[trigger] places2[k],
    ) || homes.contains(places2[k]) by {
        if k != i {
            assert(places2[k] == places[k]);
        }
    }
}

/// When every file is at home the model is the base.
pub proof fn lemma_layout_home(base: Map<Seq<char>, int>, homes: Seq<Seq<char>>)
    requires
        forall|k: int| 0 <= k < homes.len() ==> base.dom().contains(#[trigger] homes[k]),
    ensures
        layout(base, homes, homes) == base,
{
    assert forall|p: Seq<char>| homes.contains(p) implies homes[homes.index_of(p)] == p by {}
    assert(layout(base, homes, homes) =~= base);
}

} // verus!

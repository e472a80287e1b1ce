//! The state of the assets that were asked for, by path.
//!
//! Loading an asset is done elsewhere. What is kept here is how each load
//! went, so that a failure can be shown, and tried again, without anyone
//! forgetting which path a part was meant to have.

use crate::error::CoreError;
use vstd::prelude::*;

verus! {

/// How far the loading of one asset has come.
#[derive(Debug, PartialEq, Eq)]
pub enum AssetState {
    /// Read from disk, not yet handed to the renderer.
    Loading,
    /// Ready to be drawn.
    Ready,
    /// Could not be loaded, for the reason given.
    Error(String),
}

/// The mathematical content of an asset state.
pub enum AssetStateView {
    Loading,
    Ready,
    Error(Seq<char>),
}

impl View for AssetState {
    type V = AssetStateView;

    open spec fn view(&self) -> AssetStateView {
        match *self {
            AssetState::Loading => AssetStateView::Loading,
            AssetState::Ready => AssetStateView::Ready,
            AssetState::Error(reason) => AssetStateView::Error(reason@),
        }
    }
}

/// What can be done with an asset in the editor.
#[derive(Debug, Clone, Copy, PartialEq, Eq, Structural)]
pub struct AssetControls {
    /// The asset can be put on a part.
    pub offer_use: bool,
    /// The asset must be loaded first, and is used only if that works.
    pub load_first: bool,
    /// The asset can be loaded again.
    pub offer_reload: bool,
    /// The last load failed, which is to be shown.
    pub show_error: bool,
}

/// What can be done with an asset in the given state. One that was never
/// asked for can be used once it has loaded. One that is loading or ready
/// can be used and loaded again. One that failed can only be loaded
/// again.
pub open spec fn controls(state: Option<AssetStateView>) -> AssetControls {
    match state {
        None => AssetControls {
            offer_use: true,
            load_first: true,
            offer_reload: false,
            show_error: false,
        },
        Some(AssetStateView::Error(_)) => AssetControls {
            offer_use: false,
            load_first: false,
            offer_reload: true,
            show_error: true,
        },
        Some(_) => AssetControls {
            offer_use: true,
            load_first: false,
            offer_reload: true,
            show_error: false,
        },
    }
}

/// The view of an optional state.
pub open spec fn state_option_view(state: Option<&AssetState>) -> Option<AssetStateView> {
    match state {
        Some(s) => Some(s@),
        None => None,
    }
}

/// What can be done with an asset in the given state.
pub fn controls_for(state: Option<&AssetState>) -> (c: AssetControls)
    ensures
        c == controls(state_option_view(state)),
{
    match state {
        None => AssetControls {
            offer_use: true,
            load_first: true,
            offer_reload: false,
            show_error: false,
        },
        Some(AssetState::Error(_)) => AssetControls {
            offer_use: false,
            load_first: false,
            offer_reload: true,
            show_error: true,
        },
        Some(_) => AssetControls {
            offer_use: true,
            load_first: false,
            offer_reload: true,
            show_error: false,
        },
    }
}

/// Whether an asset in the given state may be put on a part as it is:
/// it can be used, and need not be loaded first. That is so while it is
/// loading or ready.
pub fn may_use(state: Option<&AssetState>) -> (ok: bool)
    ensures
        ok == (controls(state_option_view(state)).offer_use && !controls(
            state_option_view(state),
        ).load_first),
        ok == (state_option_view(state) == Some(AssetStateView::Loading) || state_option_view(
            state,
        ) == Some(AssetStateView::Ready)),
{
    let c: AssetControls = controls_for(state);
    c.offer_use && !c.load_first
}

/// The states of the assets that were asked for, by path.
#[derive(Debug, PartialEq, Eq)]
pub struct AssetCache {
    paths: Vec<String>,
    states: Vec<AssetState>,
}

/// The contents of a run of paths.
pub open spec fn path_views(paths: Seq<String>) -> Seq<Seq<char>> {
    paths.map_values(|p: String| p@)
}

impl View for AssetCache {
    type V = Map<Seq<char>, AssetStateView>;

    closed spec fn view(&self) -> Map<Seq<char>, AssetStateView> {
        Map::new(
            |p: Seq<char>| path_views(self.paths@).contains(p),
            |p: Seq<char>| self.states@[path_views(self.paths@).index_of(p)]@,
        )
    }
}

impl AssetCache {
    /// Every path has one state, and no path is kept twice.
    pub closed spec fn wf(&self) -> bool {
        &&& self.paths@.len() == self.states@.len()
        &&& path_views(self.paths@).no_duplicates()
    }

    /// Where paths are distinct, the index of a path is where it stands.
    proof fn lemma_index_of(&self, i: int)
        requires
            self.wf(),
            0 <= i < self.paths@.len(),
        ensures
            path_views(self.paths@).index_of(self.paths@[i]@) == i,
            path_views(self.paths@).contains(self.paths@[i]@),
    {
        let views = path_views(self.paths@);
        assert(views[i] == self.paths@[i]@);
        let j = views.index_of(self.paths@[i]@);
        assert(0 <= j < views.len() && views[j] == views[i]);
    }

    /// The cache that knows of no asset.
    pub fn new() -> (cache: AssetCache)
        ensures
            cache.wf(),
            cache@ == Map::<Seq<char>, AssetStateView>::empty(),
    {
        let cache = AssetCache { paths: Vec::new(), states: Vec::new() };
        assert(cache@ =~= Map::<Seq<char>, AssetStateView>::empty());
        cache
    }

    /// Where the given path stands.
    fn index_of(&self, path: &String) -> (index: Option<usize>)
        requires
            self.wf(),
        ensures
            match index {
                Some(i) => i < self.paths@.len() && self.paths@[i as int]@ == path@,
                None => !path_views(self.paths@).contains(path@),
            },
    {
        let mut i: usize = 0;
        while i < self.paths.len()
            invariant
                i <= self.paths@.len(),
                forall|k: int| 0 <= k < i ==> path_views(self.paths@)[k] != path@,
            decreases self.paths@.len() - i,
        {
            if self.paths[i] == *path {
                return Some(i);
            }
            assert(path_views(self.paths@)[i as int] == self.paths@[i as int]@);
            i += 1;
        }
        None
    }

    /// The state of the asset at the given path, if it was asked for.
    pub fn get(&self, path: &String) -> (state: Option<&AssetState>)
        requires
            self.wf(),
        ensures
            match state {
                Some(s) => self@.contains_key(path@) && self@[path@] == s@,
                None => !self@.contains_key(path@),
            },
    {
        match self.index_of(path) {
            Some(i) => {
                proof {
                    self.lemma_index_of(i as int);
                }
                Some(&self.states[i])
            },
            None => None,
        }
    }

    /// The failure of the last load of the asset at the given path, for
    /// display; `None` if the asset was never asked for or its last load
    /// did not fail.
    pub fn load_error(&self, path: &String) -> (error: Option<CoreError>)
        requires
            self.wf(),
        ensures
            match error {
                Some(e) => {
                    &&& self@.contains_key(path@)
                    &&& self@[path@] is Error
                    &&& e is AssetLoadError
                    &&& e->AssetLoadError_0@ == self@[path@]->Error_0
                },
                None => !self@.contains_key(path@) || !(self@[path@] is Error),
            },
    {
        match self.get(path) {
            Some(AssetState::Error(reason)) => Some(CoreError::AssetLoadError(reason.clone())),
            _ => None,
        }
    }

    /// Sets the state of the asset at the given path.
    pub fn set(&mut self, path: String, state: AssetState)
        requires
            old(self).wf(),
        ensures
            final(self).wf(),
            final(self)@ == old(self)@.insert(path@, state@),
    {
        match self.index_of(&path) {
            Some(i) => {
                proof {
                    self.lemma_index_of(i as int);
                }
                self.states[i] = state;
                proof {
                    assert forall|p: Seq<char>| #[trigger]
                        self@.contains_key(p) implies self@[p] == old(self)@.insert(
                        path@,
                        state@,
                    )[p] by {
                        let j = path_views(self.paths@).index_of(p);
                        assert(path_views(self.paths@)[j] == self.paths@[j]@);
                        if p == path@ {
                            self.lemma_index_of(i as int);
                        } else {
                        }
                    }
                    assert(self@ =~= old(self)@.insert(path@, state@));
                }
            },
            None => {
                let ghost before = path_views(self.paths@);
                self.paths.push(path);
                self.states.push(state);
                proof {
                    let after = path_views(self.paths@);
                    assert(after =~= before.push(path@));
                    assert forall|a: int, b: int|
                        0 <= a < after.len() && 0 <= b < after.len() && a != b implies after[a]
                        != after[b] by {
                        if a < before.len() && b < before.len() {
                            assert(before[a] != before[b]);
                        } else if a < before.len() {
                            assert(before.contains(before[a]));
                        } else {
                            assert(before.contains(before[b]));
                        }
                    }
                    assert forall|p: Seq<char>| after.contains(p) <==> (before.contains(p) || p
                        == path@) by {
                        if before.contains(p) {
                            let j = before.index_of(p);
                            assert(after[j] == p);
                        }
                        if p == path@ {
                            assert(after[before.len() as int] == p);
                        }
                        if after.contains(p) {
                            let j = after.index_of(p);
                            if j < before.len() {
                                assert(before[j] == p);
                            }
                        }
                    }
                    assert forall|p: Seq<char>| #[trigger]
                        self@.contains_key(p) implies self@[p] == old(self)@.insert(
                        path@,
                        state@,
                    )[p] by {
                        let j = after.index_of(p);
                        if p == path@ {
                            assert(after[before.len() as int] == p);
                            assert(j == before.len());
                        } else {
                            assert(before[j] == p);
                            let j0 = before.index_of(p);
                            assert(before[j0] == after[j0]);
                            assert(j0 == j);
                        }
                    }
                    assert(self@ =~= old(self)@.insert(path@, state@));
                }
            },
        }
    }

    /// Records how a load of the asset at the given path went, and returns
    /// whether it worked. After a load that worked the asset is loading;
    /// after one that failed it carries the reason.
    pub fn record_load(&mut self, path: String, outcome: Result<(), String>) -> (loaded: bool)
        requires
            old(self).wf(),
        ensures
            final(self).wf(),
            loaded == outcome is Ok,
            final(self)@ == old(self)@.insert(
                path@,
                match outcome {
                    Ok(_) => AssetStateView::Loading,
                    Err(reason) => AssetStateView::Error(reason@),
                },
            ),
    {
        match outcome {
            Ok(_) => {
                self.set(path, AssetState::Loading);
                true
            },
            Err(reason) => {
                self.set(path, AssetState::Error(reason));
                false
            },
        }
    }
}

} // verus!

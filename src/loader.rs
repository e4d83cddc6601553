use vstd::prelude::*;

use crate::component_manager::extends;
use crate::plugin::{keeps_registrations, CorePluginContext, Plugin, PluginContext, PluginDescription};

verus! {

/// The extension of the file name of `path`, if it has one.
pub uninterp spec fn path_extension(path: Seq<char>) -> Option<Seq<char>>;

/// Relies on `std::path::Path::extension`: the part of the file name after
/// its last dot, when the name has one that does not start it. The answer
/// depends on the text alone.
#[verifier::external_body]
fn file_extension(path: &str) -> (r: Option<String>)
    ensures
        match r {
            Some(e) => path_extension(path@) == Some(e@),
            None => path_extension(path@) is None,
        },
{
    std::path::Path::new(path).extension().and_then(|e| e.to_str()).map(|e| e.to_string())
}

/// Whether an extension that was found is the one wanted.
pub fn has_extension(found: &Option<String>, wanted: &str) -> (r: bool)
    ensures
        r == (found matches Some(e) && e@ == wanted@),
{
    match found {
        Some(e) => *e == wanted.to_string(),
        None => false,
    }
}

/// The paths whose extension is `extension`, in their order.
pub open spec fn candidates(paths: Seq<Seq<char>>, extension: Seq<char>) -> Seq<Seq<char>>
    decreases paths.len(),
{
    if paths.len() == 0 {
        Seq::empty()
    } else {
        let rest = candidates(paths.drop_last(), extension);
        if path_extension(paths.last()) == Some(extension) {
            rest.push(paths.last())
        } else {
            rest
        }
    }
}

/// Keeps the paths that name a dynamic library: those whose extension is
/// `extension`.
pub fn select_candidates(paths: Vec<String>, extension: &str) -> (r: Vec<String>)
    ensures
        r@.map_values(|p: String| p@) == candidates(paths@.map_values(|p: String| p@), extension@),
{
    let ghost all = paths@.map_values(|p: String| p@);
    let mut paths = paths;
    let mut out: Vec<String> = Vec::new();
    let ghost mut done: int = 0;
    let ghost start = paths@;
    while paths.len() > 0
        invariant
            0 <= done <= start.len(),
            all == start.map_values(|p: String| p@),
            paths@ == start.subrange(done, start.len() as int),
            out@.map_values(|p: String| p@) == candidates(all.subrange(0, done), extension@),
        decreases paths@.len(),
    {
        let p = paths.remove(0);
        let found = file_extension(p.as_str());
        let keep = has_extension(&found, extension);
        proof {
            assert(p == start[done]);
            assert(all.subrange(0, done + 1).drop_last() =~= all.subrange(0, done));
            assert(all.subrange(0, done + 1).last() == p@);
            assert(paths@ =~= start.subrange(done + 1, start.len() as int));
        }
        let ghost before = out@;
        if keep {
            out.push(p);
            proof {
                assert(out@.map_values(|p: String| p@) =~= before.map_values(|p: String| p@).push(p@));
            }
        }
        proof {
            done = done + 1;
        }
    }
    proof {
        assert(all.subrange(0, done) =~= all);
    }
    out
}

/// Why a candidate module was skipped.
#[derive(Debug, Clone, Copy, PartialEq, Eq, Structural)]
pub enum LoadFailure {
    /// The file could not be loaded as a library.
    ModuleLoad,
    /// The library does not export the entry point.
    SymbolResolution,
}

/// What became of the attempt to load a candidate module.
pub enum CandidateOutcome {
    LoadFailed,
    SymbolMissing,
    Loaded(Box<dyn Plugin>),
}

/// What the caller is to do with the library image of a candidate.
#[derive(Debug, Clone, Copy, PartialEq, Eq, Structural)]
pub enum ImageAction {
    /// Nothing was loaded.
    Nothing,
    /// Unload the image: nothing from it is in use.
    Release,
    /// Keep the image loaded for as long as the process runs: the module's
    /// code is in use.
    Retain,
}

/// The loader's record of the modules it went through.
pub struct PluginManager {
    context: CorePluginContext,
    plugins: Vec<Box<dyn Plugin>>,
    descriptions: Vec<PluginDescription>,
    resident: Vec<String>,
    failures: Vec<(String, LoadFailure)>,
}

/// How many of the recorded failures are failures to load.
pub open spec fn load_error_count(failures: Seq<(Seq<char>, LoadFailure)>) -> nat
    decreases failures.len(),
{
    if failures.len() == 0 {
        0
    } else {
        load_error_count(failures.drop_last()) + if failures.last().1 == LoadFailure::ModuleLoad {
            1nat
        } else {
            0nat
        }
    }
}

/// What `settle` does with a candidate that failed to load.
pub open spec fn skipped_unloadable(before: &PluginManager, after: &PluginManager, path: Seq<char>) -> bool {
    &&& after.failures() == before.failures().push((path, LoadFailure::ModuleLoad))
    &&& after.resident() == before.resident()
    &&& after.context() == before.context()
}

/// What `settle` does with a library that lacks the entry point.
pub open spec fn skipped_without_entry(before: &PluginManager, after: &PluginManager, path: Seq<char>) -> bool {
    &&& after.failures() == before.failures().push((path, LoadFailure::SymbolResolution))
    &&& after.resident() == before.resident()
    &&& after.context() == before.context()
}

/// What `settle` does with a module that loaded.
pub open spec fn activated(before: &PluginManager, after: &PluginManager, path: Seq<char>) -> bool {
    &&& after.failures() == before.failures()
    &&& after.resident() == before.resident().push(path)
    &&& keeps_registrations(&before.context(), &after.context())
}

impl PluginManager {
    pub closed spec fn context(&self) -> CorePluginContext {
        self.context
    }

    /// The paths of the modules that were initialized and kept, in order.
    pub closed spec fn resident(&self) -> Seq<Seq<char>> {
        self.resident@.map_values(|p: String| p@)
    }

    /// The skipped candidates and why, in order.
    pub closed spec fn failures(&self) -> Seq<(Seq<char>, LoadFailure)> {
        self.failures@.map_values(|f: (String, LoadFailure)| (f.0@, f.1))
    }

    pub closed spec fn wf(&self) -> bool {
        self.context.context_wf()
    }

    pub fn new(ctx: CorePluginContext) -> (r: Self)
        requires
            ctx.context_wf(),
        ensures
            r.wf(),
            r.context() == ctx,
            r.resident().len() == 0,
            r.failures().len() == 0,
    {
        PluginManager {
            context: ctx,
            plugins: Vec::new(),
            descriptions: Vec::new(),
            resident: Vec::new(),
            failures: Vec::new(),
        }
    }

    /// Records what became of the candidate at `path`. A loaded module is
    /// initialized with the context and kept, and its image must stay
    /// loaded; a candidate that failed is recorded and skipped, and an image
    /// without the entry point is to be released.
    pub fn settle(&mut self, path: String, outcome: CandidateOutcome) -> (r: ImageAction)
        requires
            old(self).wf(),
        ensures
            final(self).wf(),
            match outcome {
                CandidateOutcome::LoadFailed => r == ImageAction::Nothing && skipped_unloadable(&*old(self), &*final(self), path@),
                CandidateOutcome::SymbolMissing => r == ImageAction::Release && skipped_without_entry(&*old(self), &*final(self), path@),
                CandidateOutcome::Loaded(_) => r == ImageAction::Retain && activated(&*old(self), &*final(self), path@),
            },
    {
        match outcome {
            CandidateOutcome::LoadFailed => {
                let ghost before = self.failures@;
                self.failures.push((path, LoadFailure::ModuleLoad));
                proof {
                    assert(self.failures() =~= before.map_values(|f: (String, LoadFailure)| (f.0@, f.1)).push((path@, LoadFailure::ModuleLoad)));
                }
                ImageAction::Nothing
            },
            CandidateOutcome::SymbolMissing => {
                let ghost before = self.failures@;
                self.failures.push((path, LoadFailure::SymbolResolution));
                proof {
                    assert(self.failures() =~= before.map_values(|f: (String, LoadFailure)| (f.0@, f.1)).push((path@, LoadFailure::SymbolResolution)));
                }
                ImageAction::Release
            },
            CandidateOutcome::Loaded(plugin) => {
                plugin.init(&mut self.context);
                let description = plugin.description();
                self.descriptions.push(description);
                self.plugins.push(plugin);
                let ghost before = self.resident@;
                self.resident.push(path);
                proof {
                    assert(self.resident() =~= before.map_values(|p: String| p@).push(path@));
                }
                ImageAction::Retain
            },
        }
    }

    pub fn context_ref(&self) -> (r: &CorePluginContext)
        ensures
            *r == self.context(),
    {
        &self.context
    }

    pub fn into_context(self) -> (r: CorePluginContext)
        ensures
            r == self.context(),
    {
        self.context
    }

    /// The descriptions of the resident modules, in order.
    pub fn descriptions(&self) -> &Vec<PluginDescription> {
        &self.descriptions
    }

    pub fn resident_paths(&self) -> (r: &Vec<String>)
        ensures
            r@.map_values(|p: String| p@) == self.resident(),
    {
        &self.resident
    }

    pub fn load_failures(&self) -> (r: &Vec<(String, LoadFailure)>)
        ensures
            r@.map_values(|f: (String, LoadFailure)| (f.0@, f.1)) == self.failures(),
    {
        &self.failures
    }
}

/// A run over a file that is not a library and then over a module that
/// loads goes on past the first: the module is kept, everything registered
/// before stays registered, and exactly one failure to load is recorded
/// when none was before.
pub proof fn lemma_loader_resilience(
    m0: &PluginManager,
    m1: &PluginManager,
    m2: &PluginManager,
    bad: Seq<char>,
    good: Seq<char>,
)
    requires
        load_error_count(m0.failures()) == 0,
        skipped_unloadable(m0, m1, bad),
        activated(m1, m2, good),
    ensures
        load_error_count(m2.failures()) == 1,
        m2.failures().len() == m0.failures().len() + 1,
        m2.resident() == m0.resident().push(good),
        extends(m0.context().registrations(), m2.context().registrations()),
        m2.context().context_wf(),
{
    assert(m1.failures().drop_last() =~= m0.failures());
}

} // verus!

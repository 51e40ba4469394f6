//! The plan of a batch rename: which file goes where, with every distinct path
//! given a numeric id, and the check that the plan is one-to-one.
use std::collections::HashMap;
use std::collections::HashSet;
use vstd::prelude::*;

use crate::paths::{file_name, join, parent, path_file_name, path_join, path_parent};
use crate::paths::{trim, trimmed};
use crate::pattern::{check_pattern, regex_compiles, regex_error_text, regex_replace_all, replace_all};
use crate::structs::{ansi_sequence, Color};
use crate::textdiff::{chunk_views, diff_chunks, old_side, text_diff, ChunkKind};
use vstd::string::StrSliceExecFns;
use vstd::string::StringExecFns;

verus! {

broadcast use vstd::std_specs::hash::group_hash_axioms;

/// What the file system said when a source file was looked up.
#[derive(Clone, Copy, Debug, PartialEq, Eq, Structural)]
pub enum Probe {
    /// The file exists.
    Found,
    /// There is no such file.
    NotFound,
    /// The lookup failed for another reason (permissions, I/O error).
    Failed,
}

/// One path given on the command line: its text where it is valid UTF-8, and
/// what looking it up found.
#[derive(Clone, Debug)]
pub struct InputFile {
    pub path: Option<String>,
    pub probe: Probe,
}

impl View for InputFile {
    type V = (Option<Seq<char>>, Probe);

    open spec fn view(&self) -> (Option<Seq<char>>, Probe) {
        (
            match self.path {
                Some(p) => Some(p@),
                None => None,
            },
            self.probe,
        )
    }
}

/// Why a plan could not be made.
#[derive(Debug)]
pub enum PlanError {
    /// The source pattern is not a regular expression.
    IrregularPattern { pattern: String, reason: String },
}

/// For a source path: its file name, the file name after substitution, and
/// the destination path (the new name in the source's directory). `None`
/// where the path has no file name or no parent.
pub open spec fn rename_target(
    source_pattern: Seq<char>,
    dest_pattern: Seq<char>,
    path: Seq<char>,
) -> Option<(Seq<char>, Seq<char>, Seq<char>)> {
    match path_file_name(path) {
        None => None,
        Some(name) => match path_parent(path) {
            None => None,
            Some(dir) => {
                let new_name = regex_replace_all(source_pattern, name, dest_pattern);
                Some((name, new_name, path_join(dir, new_name)))
            },
        },
    }
}

/// The abstract plan: the distinct paths in order of first mention (a path's
/// id is its position), and the ids of moved, unchanged and missing files.
pub struct LinkPlan {
    pub paths: Seq<Seq<char>>,
    pub sources: Seq<usize>,
    pub destinations: Seq<usize>,
    pub links: Map<usize, usize>,
    pub unchanged: Seq<usize>,
    pub missing: Seq<usize>,
}

/// The plan before any file was seen.
pub open spec fn empty_plan() -> LinkPlan {
    LinkPlan {
        paths: Seq::empty(),
        sources: Seq::empty(),
        destinations: Seq::empty(),
        links: Map::empty(),
        unchanged: Seq::empty(),
        missing: Seq::empty(),
    }
}

/// The id of `p` among `paths`, adding `p` at the end when it is new.
pub open spec fn intern(paths: Seq<Seq<char>>, p: Seq<char>) -> (Seq<Seq<char>>, int) {
    if paths.contains(p) {
        (paths, paths.index_of(p))
    } else {
        (paths.push(p), paths.len() as int)
    }
}

/// The plan after one more input file.
pub open spec fn plan_step(
    plan: LinkPlan,
    file: (Option<Seq<char>>, Probe),
    source_pattern: Seq<char>,
    dest_pattern: Seq<char>,
    test_mode: bool,
) -> LinkPlan {
    match file.0 {
        None => plan,
        Some(path) => match rename_target(source_pattern, dest_pattern, path) {
            None => plan,
            Some((name, new_name, dest)) => {
                let (paths1, s) = intern(plan.paths, path);
                let (paths2, d) = intern(paths1, dest);
                let with_ids = LinkPlan { paths: paths2, ..plan };
                if !test_mode && file.1 == Probe::NotFound {
                    LinkPlan { missing: plan.missing.push(s as usize), ..with_ids }
                } else if !test_mode && file.1 == Probe::Failed {
                    with_ids
                } else if new_name == name {
                    LinkPlan { unchanged: plan.unchanged.push(s as usize), ..with_ids }
                } else {
                    LinkPlan {
                        sources: plan.sources.push(s as usize),
                        destinations: plan.destinations.push(d as usize),
                        links: plan.links.insert(s as usize, d as usize),
                        ..with_ids
                    }
                }
            },
        },
    }
}

/// The plan for a whole list of input files, taken in order.
pub open spec fn plan_files(
    files: Seq<(Option<Seq<char>>, Probe)>,
    source_pattern: Seq<char>,
    dest_pattern: Seq<char>,
    test_mode: bool,
) -> LinkPlan
    decreases files.len(),
{
    if files.len() == 0 {
        empty_plan()
    } else {
        plan_step(
            plan_files(files.drop_last(), source_pattern, dest_pattern, test_mode),
            files.last(),
            source_pattern,
            dest_pattern,
            test_mode,
        )
    }
}

/// The views of a sequence of strings.
pub open spec fn string_views(v: Seq<String>) -> Seq<Seq<char>> {
    v.map_values(|s: String| s@)
}

/// The views of the input files.
pub open spec fn input_views(files: Seq<InputFile>) -> Seq<(Option<Seq<char>>, Probe)> {
    files.map_values(|f: InputFile| f@)
}

/// The mapping between input and output files, with each distinct path
/// numbered.
pub struct UniqueLinks {
    pub input_file_count: usize,
    pub processing_file_count: usize,
    pub sources: Vec<usize>,
    pub destinations: Vec<usize>,
    pub link_map: HashMap<usize, usize>,
    pub id_to_path: HashMap<usize, String>,
    pub unchanged_sources: Vec<usize>,
    pub missing_sources: Vec<usize>,
}

impl UniqueLinks {
    /// The links hold exactly `plan`.
    pub open spec fn holds_plan(&self, plan: LinkPlan) -> bool {
        &&& self.sources@ == plan.sources
        &&& self.destinations@ == plan.destinations
        &&& self.link_map@ == plan.links
        &&& self.unchanged_sources@ == plan.unchanged
        &&& self.missing_sources@ == plan.missing
        &&& self.id_to_path@.dom() == Set::new(|i: usize| 0 <= i < plan.paths.len())
        &&& forall|i: usize|
            0 <= i < plan.paths.len() ==> #[trigger] self.id_to_path@[i]@ == plan.paths[i as int]
    }
}

/// Looks `p` up among `paths` and adds it when it is new; returns its id.
fn intern_path(paths: &mut Vec<String>, p: &String) -> (id: usize)
    requires
        string_views(old(paths)@).no_duplicates(),
    ensures
        string_views(final(paths)@) == intern(string_views(old(paths)@), p@).0,
        id == intern(string_views(old(paths)@), p@).1,
        string_views(final(paths)@).no_duplicates(),
        id < final(paths)@.len(),
{
    let ghost views = string_views(paths@);
    let mut i: usize = 0;
    while i < paths.len()
        invariant
            0 <= i <= paths@.len(),
            paths@ == old(paths)@,
            views == string_views(paths@),
            views.no_duplicates(),
            forall|j: int| 0 <= j < i ==> views[j] != p@,
        decreases paths@.len() - i,
    {
        if paths[i] == *p {
            assert(views[i as int] == p@);
            assert(views.contains(p@));
            assert(views.index_of(p@) == i as int);
            return i;
        }
        i = i + 1;
    }
    assert(!views.contains(p@));
    paths.push(p.clone());
    assert(string_views(paths@) =~= views.push(p@));
    paths.len() - 1
}


impl UniqueLinks {
    /// Plans the rename of every input file: the file name of each path is
    /// rewritten by `source_pattern` -> `dest_pattern`, and the new name is put
    /// in the same directory. Every distinct path (source or destination) gets
    /// an id in order of first mention. A file whose name does not change is
    /// listed as unchanged; unless `test_mode` is set, a file that does not
    /// exist is listed as missing and one that could not be looked up is left
    /// out. Fails only when `source_pattern` is not a valid regex.
    pub fn new(
        input_files: &[InputFile],
        source_pattern: &str,
        dest_pattern: &str,
        test_mode: bool,
    ) -> (r: Result<UniqueLinks, PlanError>)
        ensures
            r is Err <==> !regex_compiles(source_pattern@),
            r matches Err(PlanError::IrregularPattern { pattern, reason }) ==> pattern@
                == source_pattern@ && reason@ == regex_error_text(source_pattern@),
            r matches Ok(links) ==> {
                &&& links.input_file_count == input_files@.len()
                &&& links.processing_file_count == links.sources@.len()
                &&& links.holds_plan(
                    plan_files(input_views(input_files@), source_pattern@, dest_pattern@, test_mode),
                )
                &&& plan_wf(
                    plan_files(input_views(input_files@), source_pattern@, dest_pattern@, test_mode),
                    source_pattern@,
                    dest_pattern@,
                    input_files@.len(),
                )
                &&& links.consistent()
                &&& links.paths_known()
            },
    {
        match check_pattern(source_pattern) {
            Ok(()) => {},
            Err(reason) => {
                return Err(
                    PlanError::IrregularPattern { pattern: source_pattern.to_string(), reason },
                );
            },
        }
        let ghost files = input_views(input_files@);
        let mut paths: Vec<String> = Vec::new();
        let mut sources: Vec<usize> = Vec::new();
        let mut destinations: Vec<usize> = Vec::new();
        let mut link_map: HashMap<usize, usize> = HashMap::new();
        let mut unchanged_sources: Vec<usize> = Vec::new();
        let mut missing_sources: Vec<usize> = Vec::new();
        let mut i: usize = 0;
        while i < input_files.len()
            invariant
                0 <= i <= input_files@.len(),
                files == input_views(input_files@),
                regex_compiles(source_pattern@),
                string_views(paths@).no_duplicates(),
                plan_wf(
                    plan_files(files.take(i as int), source_pattern@, dest_pattern@, test_mode),
                    source_pattern@,
                    dest_pattern@,
                    i as nat,
                ),
                ({
                    let plan = plan_files(files.take(i as int), source_pattern@, dest_pattern@, test_mode);
                    &&& string_views(paths@) == plan.paths
                    &&& sources@ == plan.sources
                    &&& destinations@ == plan.destinations
                    &&& link_map@ == plan.links
                    &&& unchanged_sources@ == plan.unchanged
                    &&& missing_sources@ == plan.missing
                }),
            decreases input_files@.len() - i,
        {
            let ghost before = plan_files(files.take(i as int), source_pattern@, dest_pattern@, test_mode);
            assert(files.take(i + 1).drop_last() =~= files.take(i as int));
            assert(files.take(i + 1).last() == files[i as int]);
            assert(files[i as int] == input_files@[i as int]@);
            let file = &input_files[i];
            if let Some(path) = &file.path {
                if let Some(name) = file_name(path.as_str()) {
                    if let Some(dir) = parent(path.as_str()) {
                        let new_name = replace_all(source_pattern, name.as_str(), dest_pattern);
                        let dest = join(dir.as_str(), new_name.as_str());
                        let s = intern_path(&mut paths, path);
                        let d = intern_path(&mut paths, &dest);
                        if !test_mode && file.probe == Probe::NotFound {
                            missing_sources.push(s);
                        } else if !test_mode && file.probe == Probe::Failed {
                            // A file that could not be looked up is left out.
                        } else if new_name == name {
                            unchanged_sources.push(s);
                        } else {
                            link_map.insert(s, d);
                            sources.push(s);
                            destinations.push(d);
                        }
                    }
                }
            }
            // The length of a vector fits in a usize, and so do the ids.
            let _paths_len = paths.len();
            proof {
                lemma_plan_step_wf(before, files[i as int], source_pattern@, dest_pattern@, test_mode, i as nat);
            }
            i = i + 1;
        }
        assert(files.take(input_files@.len() as int) =~= files);
        let ghost plan = plan_files(files, source_pattern@, dest_pattern@, test_mode);
        let mut id_to_path: HashMap<usize, String> = HashMap::new();
        let mut j: usize = 0;
        while j < paths.len()
            invariant
                0 <= j <= paths@.len(),
                string_views(paths@) == plan.paths,
                id_to_path@.dom() == Set::new(|k: usize| 0 <= k < j),
                forall|k: usize| 0 <= k < j ==> #[trigger] id_to_path@[k]@ == plan.paths[k as int],
            decreases paths@.len() - j,
        {
            id_to_path.insert(j, paths[j].clone());
            assert(id_to_path@.dom() =~= Set::new(|k: usize| 0 <= k < j + 1));
            j = j + 1;
        }
        let processing_file_count = sources.len();
        let links = UniqueLinks {
            input_file_count: input_files.len(),
            processing_file_count,
            sources,
            destinations,
            link_map,
            id_to_path,
            unchanged_sources,
            missing_sources,
        };
        assert(links.consistent()) by {
            assert forall|k: int| 0 <= k < links.sources@.len() implies {
                &&& links.link_map@.contains_key(#[trigger] links.sources@[k])
                &&& links.link_map@[links.sources@[k]] == links.destinations@[k]
                &&& links.id_to_path@.contains_key(links.sources@[k])
                &&& links.id_to_path@.contains_key(links.destinations@[k])
            } by {
                assert(plan.sources[k] < plan.paths.len());
                assert(plan.destinations[k] < plan.paths.len());
            }
        }
        assert(links.paths_known()) by {
            assert forall|key: usize| #[trigger] links.link_map@.contains_key(key) implies links.id_to_path@.contains_key(key)
                && links.id_to_path@.contains_key(links.link_map@[key]) by {
                let k = choose|k: int| 0 <= k < links.sources@.len() && links.sources@[k] == key;
                assert(links.link_map@.contains_key(links.sources@[k]));
            }
        }
        Ok(links)
    }
}


/// The properties that every plan has: ids are unique per path, every id
/// names a path, each moved file goes to its renamed path in the same
/// directory under a different name, each unchanged file keeps its name, the
/// link map sends each source to its destination, and each input file adds at
/// most one entry and two paths.
pub open spec fn plan_wf(
    plan: LinkPlan,
    source_pattern: Seq<char>,
    dest_pattern: Seq<char>,
    n_files: nat,
) -> bool {
    &&& plan.paths.no_duplicates()
    &&& plan.sources.len() == plan.destinations.len()
    &&& forall|k: int|
        0 <= k < plan.sources.len() ==> {
            &&& #[trigger] plan.sources[k] < plan.paths.len()
            &&& plan.destinations[k] < plan.paths.len()
            &&& rename_target(source_pattern, dest_pattern, plan.paths[plan.sources[k] as int]) matches Some(
                (name, new_name, dest),
            ) && new_name != name && dest == plan.paths[plan.destinations[k] as int]
            &&& plan.links.contains_key(plan.sources[k])
            &&& plan.links[plan.sources[k]] == plan.destinations[k]
        }
    &&& forall|key: usize| #[trigger] plan.links.contains_key(key) ==> plan.sources.contains(key)
    &&& forall|k: int|
        0 <= k < plan.unchanged.len() ==> {
            &&& #[trigger] plan.unchanged[k] < plan.paths.len()
            &&& rename_target(source_pattern, dest_pattern, plan.paths[plan.unchanged[k] as int]) matches Some(
                (name, new_name, _),
            ) && new_name == name
        }
    &&& forall|k: int| 0 <= k < plan.missing.len() ==> #[trigger] plan.missing[k] < plan.paths.len()
    &&& plan.sources.len() + plan.unchanged.len() + plan.missing.len() <= n_files
    &&& plan.paths.len() <= 2 * n_files
}

/// Whether an input file is counted in a plan: it has a readable path with
/// a file name and a parent, and, unless in test mode, its lookup did not
/// fail.
pub open spec fn counted_input(
    file: (Option<Seq<char>>, Probe),
    source_pattern: Seq<char>,
    dest_pattern: Seq<char>,
    test_mode: bool,
) -> bool {
    &&& file.0 matches Some(path) && rename_target(source_pattern, dest_pattern, path) is Some
    &&& !test_mode ==> file.1 != Probe::Failed
}

/// Every counted input file is either moved, unchanged or missing, so when
/// all of them are counted the three lists together have one entry per
/// input; and in test mode no file is listed as missing.
pub proof fn lemma_plan_counts(
    files: Seq<(Option<Seq<char>>, Probe)>,
    source_pattern: Seq<char>,
    dest_pattern: Seq<char>,
    test_mode: bool,
)
    ensures
        test_mode ==> plan_files(files, source_pattern, dest_pattern, test_mode).missing.len() == 0,
        (forall|k: int|
            0 <= k < files.len() ==> #[trigger] counted_input(
                files[k],
                source_pattern,
                dest_pattern,
                test_mode,
            )) ==> {
            let plan = plan_files(files, source_pattern, dest_pattern, test_mode);
            plan.sources.len() + plan.unchanged.len() + plan.missing.len() == files.len()
        },
    decreases files.len(),
{
    if files.len() > 0 {
        lemma_plan_counts(files.drop_last(), source_pattern, dest_pattern, test_mode);
        if forall|k: int|
            0 <= k < files.len() ==> #[trigger] counted_input(
                files[k],
                source_pattern,
                dest_pattern,
                test_mode,
            ) {
            assert forall|k: int| 0 <= k < files.drop_last().len() implies #[trigger] counted_input(
                files.drop_last()[k],
                source_pattern,
                dest_pattern,
                test_mode,
            ) by {
                assert(files.drop_last()[k] == files[k]);
                assert(counted_input(files[k], source_pattern, dest_pattern, test_mode));
            }
            assert(counted_input(files[files.len() - 1], source_pattern, dest_pattern, test_mode));
        }
    }
}

/// The move that an input file asks for, if any: its path and its
/// destination path, when the path has a file name and a parent, the new
/// name differs from the old one, and (unless in test mode) the file was
/// found.
pub open spec fn requested_move(
    file: (Option<Seq<char>>, Probe),
    source_pattern: Seq<char>,
    dest_pattern: Seq<char>,
    test_mode: bool,
) -> Option<(Seq<char>, Seq<char>)> {
    match file.0 {
        None => None,
        Some(path) => match rename_target(source_pattern, dest_pattern, path) {
            None => None,
            Some((name, new_name, dest)) => if (test_mode || file.1 == Probe::Found) && new_name
                != name {
                Some((path, dest))
            } else {
                None
            },
        },
    }
}

/// The moves that a list of input files asks for, in input order, one per
/// file that asks for one.
pub open spec fn requested_moves(
    files: Seq<(Option<Seq<char>>, Probe)>,
    source_pattern: Seq<char>,
    dest_pattern: Seq<char>,
    test_mode: bool,
) -> Seq<(Seq<char>, Seq<char>)>
    decreases files.len(),
{
    if files.len() == 0 {
        Seq::empty()
    } else {
        let earlier = requested_moves(files.drop_last(), source_pattern, dest_pattern, test_mode);
        match requested_move(files.last(), source_pattern, dest_pattern, test_mode) {
            Some(m) => earlier.push(m),
            None => earlier,
        }
    }
}

/// Whether `plan` lists exactly the moves `moves`, in order: the `j`-th
/// source id names the `j`-th moved path, the `j`-th destination id names
/// its destination path, and the link map sends the one to the other.
pub open spec fn lists_moves(plan: LinkPlan, moves: Seq<(Seq<char>, Seq<char>)>) -> bool {
    &&& plan.paths.no_duplicates()
    &&& plan.sources.len() == moves.len()
    &&& plan.destinations.len() == moves.len()
    &&& forall|j: int|
        0 <= j < moves.len() ==> {
            &&& 0 <= #[trigger] plan.sources[j] < plan.paths.len()
            &&& 0 <= plan.destinations[j] < plan.paths.len()
            &&& plan.paths[plan.sources[j] as int] == moves[j].0
            &&& plan.paths[plan.destinations[j] as int] == moves[j].1
            &&& plan.links.contains_key(plan.sources[j])
            &&& plan.links[plan.sources[j]] == plan.destinations[j]
        }
}

/// A requested move goes to the destination that the renaming gives its
/// source path.
pub open spec fn moves_are_renames(
    moves: Seq<(Seq<char>, Seq<char>)>,
    source_pattern: Seq<char>,
    dest_pattern: Seq<char>,
) -> bool {
    forall|j: int|
        0 <= j < moves.len() ==> (rename_target(source_pattern, dest_pattern, (#[trigger] moves[j]).0) matches Some(
            (_, _, dest),
        ) && dest == moves[j].1)
}

/// Every input file that asks for a move gets its own link: the plan's
/// sources and destinations are, in input order, the ids of each such
/// file's own path and of its destination path, and the link map sends the
/// one to the other.
pub proof fn lemma_plan_moves(
    files: Seq<(Option<Seq<char>>, Probe)>,
    source_pattern: Seq<char>,
    dest_pattern: Seq<char>,
    test_mode: bool,
)
    requires
        files.len() <= usize::MAX / 2,
    ensures
        lists_moves(
            plan_files(files, source_pattern, dest_pattern, test_mode),
            requested_moves(files, source_pattern, dest_pattern, test_mode),
        ),
        plan_files(files, source_pattern, dest_pattern, test_mode).paths.len() <= 2 * files.len(),
        moves_are_renames(
            requested_moves(files, source_pattern, dest_pattern, test_mode),
            source_pattern,
            dest_pattern,
        ),
    decreases files.len(),
{
    if files.len() > 0 {
        lemma_plan_moves(files.drop_last(), source_pattern, dest_pattern, test_mode);
        let before = plan_files(files.drop_last(), source_pattern, dest_pattern, test_mode);
        let moves = requested_moves(files.drop_last(), source_pattern, dest_pattern, test_mode);
        let after = plan_files(files, source_pattern, dest_pattern, test_mode);
        let moves2 = requested_moves(files, source_pattern, dest_pattern, test_mode);
        let file = files.last();
        match file.0 {
            None => {},
            Some(path) => match rename_target(source_pattern, dest_pattern, path) {
                None => {},
                Some((name, new_name, dest)) => {
                    lemma_intern(before.paths, path);
                    let (paths1, s) = intern(before.paths, path);
                    lemma_intern(paths1, dest);
                    let (paths2, d) = intern(paths1, dest);
                    assert(after.paths == paths2);
                    assert(s as usize == s && d as usize == d);
                    assert forall|j: int| 0 <= j < before.paths.len() implies paths2[j]
                        == before.paths[j] by {
                        assert(paths1[j] == before.paths[j]);
                    }
                    if (test_mode || file.1 == Probe::Found) && new_name != name {
                        assert(moves2 == moves.push((path, dest)));
                        assert(paths2[s] == path);
                        assert(paths2[d] == dest);
                        assert forall|j: int| 0 <= j < moves2.len() implies {
                            &&& 0 <= #[trigger] after.sources[j] < after.paths.len()
                            &&& 0 <= after.destinations[j] < after.paths.len()
                            &&& after.paths[after.sources[j] as int] == moves2[j].0
                            &&& after.paths[after.destinations[j] as int] == moves2[j].1
                            &&& after.links.contains_key(after.sources[j])
                            &&& after.links[after.sources[j]] == after.destinations[j]
                        } by {
                            if j < moves.len() {
                                assert(after.sources[j] == before.sources[j]);
                                assert(after.destinations[j] == before.destinations[j]);
                                assert(moves2[j] == moves[j]);
                                let sj = before.sources[j] as int;
                                let dj = before.destinations[j] as int;
                                if before.sources[j] == s as usize {
                                    assert(paths1[s] == before.paths[s]);
                                    assert(moves[j].0 == path);
                                    assert(rename_target(source_pattern, dest_pattern, moves[j].0)
                                        matches Some((_, _, dd)) && dd == moves[j].1);
                                    assert(before.paths[dj] == dest);
                                    assert(paths1[dj] == dest);
                                    assert(d == dj);
                                }
                            } else {
                                assert(after.sources[j] == s as usize);
                                assert(after.destinations[j] == d as usize);
                            }
                        }
                        assert forall|j: int| 0 <= j < moves2.len() implies (rename_target(
                            source_pattern,
                            dest_pattern,
                            (#[trigger] moves2[j]).0,
                        ) matches Some((_, _, dd)) && dd == moves2[j].1) by {
                            if j < moves.len() {
                                assert(moves2[j] == moves[j]);
                            }
                        }
                    } else {
                        assert(moves2 == moves);
                        assert(after.sources == before.sources);
                        assert(after.destinations == before.destinations);
                        assert(after.links == before.links);
                        assert forall|j: int| 0 <= j < moves2.len() implies {
                            &&& 0 <= #[trigger] after.sources[j] < after.paths.len()
                            &&& 0 <= after.destinations[j] < after.paths.len()
                            &&& after.paths[after.sources[j] as int] == moves2[j].0
                            &&& after.paths[after.destinations[j] as int] == moves2[j].1
                            &&& after.links.contains_key(after.sources[j])
                            &&& after.links[after.sources[j]] == after.destinations[j]
                        } by {
                            assert(before.sources[j] < before.paths.len());
                            assert(before.destinations[j] < before.paths.len());
                        }
                    }
                },
            },
        }
    }
}

/// What interning a path does: the old ids keep their paths, the new id
/// names `p`, and a path already present keeps its id.
pub proof fn lemma_intern(paths: Seq<Seq<char>>, p: Seq<char>)
    requires
        paths.no_duplicates(),
    ensures
        ({
            let (paths2, id) = intern(paths, p);
            &&& paths2.no_duplicates()
            &&& 0 <= id < paths2.len()
            &&& paths2[id] == p
            &&& paths.len() <= paths2.len() <= paths.len() + 1
            &&& forall|j: int| 0 <= j < paths.len() ==> paths2[j] == paths[j]
            &&& forall|j: int| 0 <= j < paths.len() && paths[j] == p ==> id == j
        }),
{
    if paths.contains(p) {
        let id = paths.index_of(p);
        assert(paths[id] == p);
    } else {
        let paths2 = paths.push(p);
        assert forall|i: int, j: int|
            0 <= i < paths2.len() && 0 <= j < paths2.len() && i != j implies paths2[i]
            != paths2[j] by {
            if i < paths.len() && j < paths.len() {
            } else if i == paths.len() {
                assert(paths[j] == paths2[j]);
            } else {
                assert(paths[i] == paths2[i]);
            }
        }
    }
}

/// One more input file keeps a plan well formed, as long as the ids still
/// fit in a `usize`.
pub proof fn lemma_plan_step_wf(
    before: LinkPlan,
    file: (Option<Seq<char>>, Probe),
    source_pattern: Seq<char>,
    dest_pattern: Seq<char>,
    test_mode: bool,
    n_files: nat,
)
    requires
        plan_wf(before, source_pattern, dest_pattern, n_files),
        plan_step(before, file, source_pattern, dest_pattern, test_mode).paths.len() <= usize::MAX,
    ensures
        plan_wf(
            plan_step(before, file, source_pattern, dest_pattern, test_mode),
            source_pattern,
            dest_pattern,
            n_files + 1,
        ),
{
    let after = plan_step(before, file, source_pattern, dest_pattern, test_mode);
    match file.0 {
        None => {},
        Some(path) => match rename_target(source_pattern, dest_pattern, path) {
            None => {},
            Some((name, new_name, dest)) => {
                lemma_intern(before.paths, path);
                let (paths1, s) = intern(before.paths, path);
                lemma_intern(paths1, dest);
                let (paths2, d) = intern(paths1, dest);
                assert(after.paths == paths2);
                assert forall|j: int| 0 <= j < before.paths.len() implies paths2[j]
                    == before.paths[j] by {
                    assert(paths1[j] == before.paths[j]);
                }
                if !test_mode && file.1 == Probe::NotFound {
                } else if !test_mode && file.1 == Probe::Failed {
                } else if new_name == name {
                    assert forall|k: int| 0 <= k < after.unchanged.len() implies {
                        &&& #[trigger] after.unchanged[k] < after.paths.len()
                        &&& rename_target(source_pattern, dest_pattern, after.paths[after.unchanged[k] as int]) matches Some(
                            (name, new_name, _),
                        ) && new_name == name
                    } by {
                        if k < before.unchanged.len() {
                            assert(after.unchanged[k] == before.unchanged[k]);
                        } else {
                            assert(after.unchanged[k] == s as usize);
                            assert(paths2[s] == path);
                        }
                    }
                } else {
                    assert(paths2[s] == path);
                    assert(paths2[d] == dest);
                    assert forall|k: int| 0 <= k < after.sources.len() implies {
                        &&& #[trigger] after.sources[k] < after.paths.len()
                        &&& after.destinations[k] < after.paths.len()
                        &&& rename_target(source_pattern, dest_pattern, after.paths[after.sources[k] as int]) matches Some(
                            (name, new_name, dest),
                        ) && new_name != name && dest == after.paths[after.destinations[k] as int]
                        &&& after.links.contains_key(after.sources[k])
                        &&& after.links[after.sources[k]] == after.destinations[k]
                    } by {
                        if k < before.sources.len() {
                            assert(after.sources[k] == before.sources[k]);
                            assert(after.destinations[k] == before.destinations[k]);
                            let sk = before.sources[k] as int;
                            let dk = before.destinations[k] as int;
                            if before.sources[k] == s as usize {
                                // The same source was planned before: it went to the same place.
                                assert(before.paths[sk] == path);
                                assert(before.paths[dk] == dest);
                                assert(paths1[dk] == dest);
                                assert(d == dk);
                            }
                        } else {
                            assert(after.sources[k] == s as usize);
                            assert(after.destinations[k] == d as usize);
                        }
                    }
                    assert forall|key: usize| #[trigger]
                        after.links.contains_key(key) implies after.sources.contains(key) by {
                        if key == s as usize {
                            assert(after.sources[after.sources.len() - 1] == key);
                        } else {
                            assert(before.links.contains_key(key));
                            let k = choose|k: int|
                                0 <= k < before.sources.len() && before.sources[k] == key;
                            assert(after.sources[k] == key);
                        }
                    }
                }
            },
        },
    }
}


/// In test mode the file-system lookups are not consulted: two lists of
/// inputs with the same paths give the same plan whatever their probes say.
pub proof fn lemma_test_mode_ignores_probes(
    files1: Seq<(Option<Seq<char>>, Probe)>,
    files2: Seq<(Option<Seq<char>>, Probe)>,
    source_pattern: Seq<char>,
    dest_pattern: Seq<char>,
)
    requires
        files1.len() == files2.len(),
        forall|k: int| 0 <= k < files1.len() ==> (#[trigger] files1[k]).0 == files2[k].0,
    ensures
        plan_files(files1, source_pattern, dest_pattern, true) == plan_files(
            files2,
            source_pattern,
            dest_pattern,
            true,
        ),
    decreases files1.len(),
{
    if files1.len() > 0 {
        assert(files1.last().0 == files2.last().0);
        lemma_test_mode_ignores_probes(
            files1.drop_last(),
            files2.drop_last(),
            source_pattern,
            dest_pattern,
        );
    }
}

/// The outcome of checking a plan before anything is touched.
#[derive(Clone, Copy, Debug, PartialEq, Eq, Structural)]
pub enum LinkCheck {
    /// Distinct sources go to distinct destinations, and no destination is a
    /// source.
    OneToOne,
    /// Fewer distinct destinations than distinct sources: two files would
    /// land on the same path.
    Collision,
    /// A destination is also a source: one move would feed another.
    Chain,
}

/// The check as the library performs it: the number of distinct sources and
/// of distinct destinations agree, and no id is both.
pub open spec fn counts_agree(sources: Seq<usize>, destinations: Seq<usize>) -> bool {
    sources.to_set().len() == destinations.to_set().len()
}

/// No two different sources share a destination.
pub open spec fn one_to_one(sources: Seq<usize>, destinations: Seq<usize>) -> bool {
    forall|j: int, k: int|
        0 <= j < sources.len() && 0 <= k < sources.len() && #[trigger] destinations[j]
            == #[trigger] destinations[k] ==> sources[j] == sources[k]
}

/// Each source has a single destination.
pub open spec fn functional(sources: Seq<usize>, destinations: Seq<usize>) -> bool {
    &&& sources.len() == destinations.len()
    &&& forall|j: int, k: int|
        0 <= j < sources.len() && 0 <= k < sources.len() && #[trigger] sources[j]
            == #[trigger] sources[k] ==> destinations[j] == destinations[k]
}

impl UniqueLinks {
    /// Tells whether the planned moves can be carried out safely: a
    /// collision when the numbers of distinct destinations and of distinct
    /// sources differ, otherwise a chain when a destination is also a source.
    pub fn link_check(&self) -> (r: LinkCheck)
        ensures
            (r == LinkCheck::Collision) <==> !counts_agree(self.sources@, self.destinations@),
            (r == LinkCheck::Chain) <==> counts_agree(self.sources@, self.destinations@)
                && !self.sources@.to_set().disjoint(self.destinations@.to_set()),
            (r == LinkCheck::OneToOne) <==> counts_agree(self.sources@, self.destinations@)
                && self.sources@.to_set().disjoint(self.destinations@.to_set()),
    {
        let mut x: HashSet<usize> = HashSet::new();
        let mut i: usize = 0;
        while i < self.sources.len()
            invariant
                0 <= i <= self.sources@.len(),
                x@ == self.sources@.take(i as int).to_set(),
            decreases self.sources@.len() - i,
        {
            x.insert(self.sources[i]);
            assert(self.sources@.take(i + 1) == self.sources@.take(i as int).push(self.sources@[i as int]));
            proof {
                self.sources@.take(i as int).lemma_push_to_set_commute(self.sources@[i as int]);
            }
            i = i + 1;
        }
        assert(self.sources@.take(i as int) == self.sources@);
        let mut y: HashSet<usize> = HashSet::new();
        let mut j: usize = 0;
        while j < self.destinations.len()
            invariant
                0 <= j <= self.destinations@.len(),
                y@ == self.destinations@.take(j as int).to_set(),
            decreases self.destinations@.len() - j,
        {
            y.insert(self.destinations[j]);
            assert(self.destinations@.take(j + 1) == self.destinations@.take(j as int).push(self.destinations@[j as int]));
            proof {
                self.destinations@.take(j as int).lemma_push_to_set_commute(
                    self.destinations@[j as int],
                );
            }
            j = j + 1;
        }
        assert(self.destinations@.take(j as int) == self.destinations@);
        if y.len() != x.len() {
            return LinkCheck::Collision;
        }
        assert(counts_agree(self.sources@, self.destinations@));
        let mut k: usize = 0;
        while k < self.sources.len()
            invariant
                0 <= k <= self.sources@.len(),
                y@ == self.destinations@.to_set(),
                counts_agree(self.sources@, self.destinations@),
                forall|m: int| 0 <= m < k ==> !y@.contains(#[trigger] self.sources@[m]),
            decreases self.sources@.len() - k,
        {
            if y.contains(&self.sources[k]) {
                assert(self.sources@.to_set().contains(self.sources@[k as int]));
                assert(self.destinations@.to_set().contains(self.sources@[k as int]));
                return LinkCheck::Chain;
            }
            k = k + 1;
        }
        assert(self.sources@.to_set().disjoint(self.destinations@.to_set()));
        LinkCheck::OneToOne
    }
}

impl UniqueLinks {
    /// The collision check, on plans that pass it: the numbers of distinct
    /// sources and destinations agree and no destination is a source. A plan
    /// that fails it is refused before the call (`link_check` tells which
    /// way it fails).
    pub fn collision_check(&self)
        requires
            counts_agree(self.sources@, self.destinations@),
            self.sources@.to_set().disjoint(self.destinations@.to_set()),
    {
        let outcome = self.link_check();
        assert(outcome == LinkCheck::OneToOne);
    }
}

/// When each source has one destination, the numbers of distinct sources and
/// destinations agree exactly when no two different sources share a
/// destination.
pub proof fn lemma_counts_agree_iff_one_to_one(sources: Seq<usize>, destinations: Seq<usize>)
    requires
        functional(sources, destinations),
    ensures
        counts_agree(sources, destinations) <==> one_to_one(sources, destinations),
{
    broadcast use vstd::seq_lib::seq_to_set_is_finite;

    let src = sources.to_set();
    let dst = destinations.to_set();
    let f = |x: usize| destinations[sources.index_of(x)];
    assert forall|x: usize| src.contains(x) implies sources[sources.index_of(x)] == x by {}
    assert(src.map(f) =~= dst) by {
        assert forall|d: usize| dst.contains(d) implies src.map(f).contains(d) by {
            let k = choose|k: int| 0 <= k < destinations.len() && destinations[k] == d;
            let x = sources[k];
            assert(src.contains(x));
            let j = sources.index_of(x);
            assert(sources[j] == sources[k]);
            assert(f(x) == d);
        }
        assert forall|d: usize| src.map(f).contains(d) implies dst.contains(d) by {
            let x = choose|x: usize| src.contains(x) && f(x) == d;
            let j = sources.index_of(x);
            assert(destinations[j] == d);
        }
    }
    if one_to_one(sources, destinations) {
        assert(vstd::relations::injective_on(f, src)) by {
            assert forall|x1: usize, x2: usize|
                src.contains(x1) && src.contains(x2) && #[trigger] f(x1) == #[trigger] f(x2) implies x1
                == x2 by {
                let j1 = sources.index_of(x1);
                let j2 = sources.index_of(x2);
                assert(destinations[j1] == destinations[j2]);
            }
        }
        vstd::set_lib::lemma_map_size(src, dst, f);
    } else {
        let (j, k) = choose|j: int, k: int|
            0 <= j < sources.len() && 0 <= k < sources.len() && destinations[j]
                == destinations[k] && sources[j] != sources[k];
        let a = sources[j];
        let b = sources[k];
        assert(src.contains(a) && src.contains(b));
        let rest = src.remove(b);
        assert(rest.map(f) =~= dst) by {
            assert forall|d: usize| dst.contains(d) implies rest.map(f).contains(d) by {
                let x = choose|x: usize| src.contains(x) && f(x) == d;
                if x == b {
                    let jb = sources.index_of(b);
                    let ja = sources.index_of(a);
                    assert(destinations[jb] == destinations[k]);
                    assert(destinations[ja] == destinations[j]);
                    assert(rest.contains(a) && f(a) == d);
                } else {
                    assert(rest.contains(x));
                }
            }
        }
        vstd::set_lib::lemma_map_size_bound(rest, dst, f);
    }
}

/// The collision check on links made by `UniqueLinks::new` passes exactly
/// when the plan is one-to-one (no two different files are sent to the same
/// path) and free of chains (no file is sent to a path that is itself
/// moved).
pub proof fn lemma_check_passes_iff_safe(
    links: UniqueLinks,
    plan: LinkPlan,
    source_pattern: Seq<char>,
    dest_pattern: Seq<char>,
    n_files: nat,
)
    requires
        links.holds_plan(plan),
        plan_wf(plan, source_pattern, dest_pattern, n_files),
    ensures
        counts_agree(links.sources@, links.destinations@) && links.sources@.to_set().disjoint(
            links.destinations@.to_set(),
        ) <==> one_to_one(links.sources@, links.destinations@) && (forall|j: int, k: int|
            0 <= j < links.sources@.len() && 0 <= k < links.destinations@.len()
                ==> #[trigger] links.sources@[j] != #[trigger] links.destinations@[k]),
{
    let sources = links.sources@;
    let destinations = links.destinations@;
    assert(functional(sources, destinations)) by {
        assert forall|j: int, k: int|
            0 <= j < sources.len() && 0 <= k < sources.len() && #[trigger] sources[j]
                == #[trigger] sources[k] implies destinations[j] == destinations[k] by {
            assert(plan.links[plan.sources[j]] == plan.destinations[j]);
            assert(plan.links[plan.sources[k]] == plan.destinations[k]);
        }
    }
    lemma_counts_agree_iff_one_to_one(sources, destinations);
    if sources.to_set().disjoint(destinations.to_set()) {
        assert forall|j: int, k: int|
            0 <= j < sources.len() && 0 <= k < destinations.len() implies #[trigger] sources[j]
            != #[trigger] destinations[k] by {
            assert(sources.to_set().contains(sources[j]));
            assert(destinations.to_set().contains(destinations[k]));
        }
    }
    if forall|j: int, k: int|
        0 <= j < sources.len() && 0 <= k < destinations.len() ==> #[trigger] sources[j]
            != #[trigger] destinations[k] {
        assert forall|x: usize| sources.to_set().contains(x) implies !destinations.to_set().contains(x) by {
            let j = choose|j: int| 0 <= j < sources.len() && sources[j] == x;
            if destinations.to_set().contains(x) {
                let k = choose|k: int| 0 <= k < destinations.len() && destinations[k] == x;
                assert(sources[j] != destinations[k]);
            }
        }
    }
}


/// How one piece of a diff is shown: common text as it is, text only in the
/// old path between `open` and `close`, text only in the new path left out.
pub open spec fn marked_chunk(chunk: (ChunkKind, Seq<char>), open: Seq<char>, close: Seq<char>) -> Seq<
    char,
> {
    match chunk.0 {
        ChunkKind::Equal => chunk.1,
        ChunkKind::Delete => open + chunk.1 + close,
        ChunkKind::Insert => Seq::empty(),
    }
}

/// The pieces of a diff shown one after the other, with the old path's own
/// text between `open` and `close`.
pub open spec fn marked(chunks: Seq<(ChunkKind, Seq<char>)>, open: Seq<char>, close: Seq<char>) -> Seq<
    char,
>
    decreases chunks.len(),
{
    if chunks.len() == 0 {
        Seq::empty()
    } else {
        marked(chunks.drop_last(), open, close) + marked_chunk(chunks.last(), open, close)
    }
}

/// The old path of a diff with its own text coloured: wrapped in `color`'s
/// sequence and the reset sequence.
pub open spec fn highlighted(chunks: Seq<(ChunkKind, Seq<char>)>, color: Color) -> Seq<char> {
    marked(chunks, ansi_sequence(color), ansi_sequence(Color::Default))
}

/// Highlighting works piece by piece: the highlight of two diffs one after
/// the other is the highlight of the first followed by that of the second.
pub proof fn lemma_highlight_concat(
    a: Seq<(ChunkKind, Seq<char>)>,
    b: Seq<(ChunkKind, Seq<char>)>,
    color: Color,
)
    ensures
        highlighted(a + b, color) == highlighted(a, color) + highlighted(b, color),
    decreases b.len(),
{
    if b.len() == 0 {
        assert(a + b =~= a);
    } else {
        lemma_highlight_concat(a, b.drop_last(), color);
        assert((a + b).drop_last() =~= a + b.drop_last());
        assert((a + b).last() == b.last());
    }
}

/// How a single piece is highlighted: common text as it is, however long;
/// text only in the old path, however long, between `color`'s sequence and
/// the reset sequence; text only in the new path not at all.
pub proof fn lemma_highlight_piece(kind: ChunkKind, text: Seq<char>, color: Color)
    ensures
        kind == ChunkKind::Equal ==> highlighted(seq![(kind, text)], color) == text,
        kind == ChunkKind::Delete ==> highlighted(seq![(kind, text)], color) == ansi_sequence(color)
            + text + ansi_sequence(Color::Default),
        kind == ChunkKind::Insert ==> highlighted(seq![(kind, text)], color).len() == 0,
{
    let one = seq![(kind, text)];
    let open = ansi_sequence(color);
    let close = ansi_sequence(Color::Default);
    assert(one.drop_last() =~= Seq::<(ChunkKind, Seq<char>)>::empty());
    assert(one.last() == (kind, text));
    assert(marked(one.drop_last(), open, close) == Seq::<char>::empty());
    assert(marked(one, open, close) == marked(one.drop_last(), open, close) + marked_chunk(
        (kind, text),
        open,
        close,
    ));
    assert(Seq::<char>::empty() + text =~= text);
    assert(Seq::<char>::empty() + (ansi_sequence(color) + text + ansi_sequence(Color::Default))
        =~= ansi_sequence(color) + text + ansi_sequence(Color::Default));
}

/// Highlighting only adds marks to the old path: with empty marks, a diff is
/// shown as exactly the text of its old side.
pub proof fn lemma_marks_only_added(chunks: Seq<(ChunkKind, Seq<char>)>)
    ensures
        marked(chunks, Seq::empty(), Seq::empty()) == old_side(chunks),
    decreases chunks.len(),
{
    if chunks.len() > 0 {
        lemma_marks_only_added(chunks.drop_last());
        let last = chunks.last();
        if last.0 == ChunkKind::Delete {
            assert(Seq::<char>::empty() + last.1 + Seq::<char>::empty() =~= last.1);
        }
    }
}

/// The text before the first `:` of `s`, if it has one.
pub open spec fn before_colon(s: Seq<char>) -> Option<Seq<char>>
    decreases s.len(),
{
    if s.len() == 0 {
        None
    } else if s[0] == ':' {
        Some(Seq::empty())
    } else {
        match before_colon(s.drop_first()) {
            Some(p) => Some(seq![s[0]] + p),
            None => None,
        }
    }
}

/// The text `UNKNOWN`.
pub open spec fn unknown_code() -> Seq<char> {
    seq!['U', 'N', 'K', 'N', 'O', 'W', 'N']
}

/// The status recorded for an error message: the trimmed text before the
/// first `:` (twice), or `UNKNOWN` and the trimmed message when there is no
/// `:`.
pub open spec fn error_code(message: Seq<char>) -> (Seq<char>, Seq<char>) {
    match before_colon(message) {
        Some(code) => (trim(code), trim(code)),
        None => (unknown_code(), trim(message)),
    }
}

/// `before_colon` finds the first `:`.
proof fn lemma_before_colon(s: Seq<char>, i: int)
    requires
        0 <= i <= s.len(),
        forall|j: int| 0 <= j < i ==> s[j] != ':',
    ensures
        i < s.len() && s[i] == ':' ==> before_colon(s) == Some(s.take(i)),
        i == s.len() ==> before_colon(s) is None,
    decreases i,
{
    if i > 0 {
        lemma_before_colon(s.drop_first(), i - 1);
        assert(seq![s[0]] + s.drop_first().take(i - 1) =~= s.take(i));
    } else if s.len() > 0 {
        assert(s.take(0) =~= Seq::<char>::empty());
    }
}

impl UniqueLinks {
    /// Shows the old path with the parts that the new path does not share
    /// wrapped in `color`.
    pub fn highlight_path_diff(old: &str, new: &str, color: Color) -> (r: String)
        ensures
            r@ == highlighted(text_diff(old@, new@), color),
            old_side(text_diff(old@, new@)) == old@,
    {
        let chunks = diff_chunks(old, new);
        let ghost views = chunk_views(chunks@);
        let mut result = String::new();
        let mut i: usize = 0;
        while i < chunks.len()
            invariant
                0 <= i <= chunks@.len(),
                views == chunk_views(chunks@),
                views == text_diff(old@, new@),
                result@ == highlighted(views.take(i as int), color),
            decreases chunks@.len() - i,
        {
            assert(views.take(i + 1).drop_last() =~= views.take(i as int));
            assert(views[i as int] == chunks@[i as int]@);
            let chunk = &chunks[i];
            match chunk.kind {
                ChunkKind::Equal => {
                    result.append(chunk.text.as_str());
                },
                ChunkKind::Delete => {
                    result.append(color.as_str());
                    result.append(chunk.text.as_str());
                    result.append(Color::Default.as_str());
                },
                ChunkKind::Insert => {},
            }
            assert(result@ =~= highlighted(views.take(i + 1), color));
            i = i + 1;
        }
        assert(views.take(chunks@.len() as int) =~= views);
        result
    }

    /// The status recorded for a failed operation, read from the error's
    /// one-line rendering (`{:#}`): the trimmed text before the first `:` as
    /// the code, or `UNKNOWN` when the message has no `:`.
    pub fn get_err_code(message: &str) -> (r: (String, String))
        ensures
            (r.0@, r.1@) == error_code(message@),
    {
        let n = message.unicode_len();
        let mut i: usize = 0;
        while i < n
            invariant
                0 <= i <= n,
                n == message@.len(),
                forall|j: int| 0 <= j < i ==> message@[j] != ':',
            decreases n - i,
        {
            if message.get_char(i) == ':' {
                proof {
                    lemma_before_colon(message@, i as int);
                }
                let code = trimmed(message.substring_char(0, i));
                let again = code.clone();
                return (code, again);
            }
            i = i + 1;
        }
        proof {
            lemma_before_colon(message@, i as int);
            reveal_strlit("UNKNOWN");
        }
        (String::from_str("UNKNOWN"), trimmed(message))
    }
}


impl UniqueLinks {
    /// The keys of the link map, each once, in the map's own order.
    fn link_keys(&self) -> (r: Vec<usize>)
        ensures
            r@.no_duplicates(),
            r@.to_set() == self.link_map@.dom(),
    {
        let ghost keys = vstd::std_specs::iter::IteratorSpec::remaining(
            &vstd::std_specs::hash::spec_keys_iter(&self.link_map),
        );
        let mut out: Vec<usize> = Vec::new();
        for k in it: self.link_map.keys()
            invariant
                it.seq() == keys,
                keys.unref().to_set() == self.link_map@.dom(),
                keys.no_duplicates(),
                out@ == keys.unref().take(it.index() as int),
        {
            out.push(*k);
            assert(out@ =~= keys.unref().take(it.index() + 1));
        }
        assert(out@ =~= keys.unref());
        assert(keys.unref().no_duplicates()) by {
            assert forall|i: int, j: int|
                0 <= i < keys.len() && 0 <= j < keys.len() && i != j implies keys.unref()[i]
                != keys.unref()[j] by {
                assert(keys[i] != keys[j]);
            }
        }
        out
    }
}

impl UniqueLinks {
    /// The lookups that the operations make succeed: each source has its
    /// destination in the link map, the map has no other keys, and every
    /// planned id has a path.
    pub open spec fn consistent(&self) -> bool {
        &&& self.sources@.len() == self.destinations@.len()
        &&& forall|k: int|
            0 <= k < self.sources@.len() ==> {
                &&& self.link_map@.contains_key(#[trigger] self.sources@[k])
                &&& self.link_map@[self.sources@[k]] == self.destinations@[k]
                &&& self.id_to_path@.contains_key(self.sources@[k])
                &&& self.id_to_path@.contains_key(self.destinations@[k])
            }
        &&& forall|key: usize| #[trigger]
            self.link_map@.contains_key(key) ==> self.sources@.contains(key)
    }

    /// Every id in the link map, key or value, has a path.
    pub open spec fn paths_known(&self) -> bool {
        forall|key: usize| #[trigger]
            self.link_map@.contains_key(key) ==> self.id_to_path@.contains_key(key)
                && self.id_to_path@.contains_key(self.link_map@[key])
    }

    /// `keys` lists every key of the link map exactly once.
    pub open spec fn lists_links(&self, keys: Seq<usize>) -> bool {
        keys.no_duplicates() && keys.to_set() == self.link_map@.dom()
    }

    /// The (source path, destination path) pair of every entry of the link
    /// map, once each, in the map's own order.
    pub fn link_pairs(&self) -> (r: Vec<(String, String)>)
        requires
            self.paths_known(),
        ensures
            exists|keys: Seq<usize>|
                {
                    &&& self.lists_links(keys)
                    &&& r@.len() == keys.len()
                    &&& forall|k: int|
                        0 <= k < r@.len() ==> (#[trigger] r@[k]).0@ == self.id_to_path@[keys[k]]@
                            && r@[k].1@ == self.id_to_path@[self.link_map@[keys[k]]]@
                },
    {
        let keys = self.link_keys();
        let mut out: Vec<(String, String)> = Vec::new();
        let mut i: usize = 0;
        while i < keys.len()
            invariant
                0 <= i <= keys@.len(),
                self.paths_known(),
                keys@.to_set() == self.link_map@.dom(),
                out@.len() == i,
                forall|k: int|
                    0 <= k < i ==> (#[trigger] out@[k]).0@ == self.id_to_path@[keys@[k]]@
                        && out@[k].1@ == self.id_to_path@[self.link_map@[keys@[k]]]@,
            decreases keys@.len() - i,
        {
            let key = keys[i];
            assert(keys@.to_set().contains(key));
            let dest_id = *self.link_map.get(&key).unwrap();
            let source_path = self.id_to_path.get(&key).unwrap().clone();
            let dest_path = self.id_to_path.get(&dest_id).unwrap().clone();
            out.push((source_path, dest_path));
            i = i + 1;
        }
        assert(self.lists_links(keys@));
        out
    }
}


/// The decimal digit for `d < 10`.
pub open spec fn digit(d: int) -> char {
    (d + '0' as int) as char
}

/// The decimal writing of `n`, as `Display` prints an unsigned integer.
pub open spec fn decimal(n: nat) -> Seq<char>
    decreases n,
{
    if n < 10 {
        seq![digit(n as int)]
    } else {
        decimal(n / 10) + seq![digit((n % 10) as int)]
    }
}

/// The text of the decimal digit `d`.
fn digit_text(d: usize) -> (r: &'static str)
    requires
        d < 10,
    ensures
        r@ == seq![digit(d as int)],
{
    proof {
        reveal_strlit("0");
        reveal_strlit("1");
        reveal_strlit("2");
        reveal_strlit("3");
        reveal_strlit("4");
        reveal_strlit("5");
        reveal_strlit("6");
        reveal_strlit("7");
        reveal_strlit("8");
        reveal_strlit("9");
    }
    match d {
        0 => "0",
        1 => "1",
        2 => "2",
        3 => "3",
        4 => "4",
        5 => "5",
        6 => "6",
        7 => "7",
        8 => "8",
        _ => "9",
    }
}

/// `n` written in decimal.
pub fn decimal_string(n: usize) -> (r: String)
    ensures
        r@ == decimal(n as nat),
    decreases n,
{
    if n < 10 {
        String::from_str(digit_text(n))
    } else {
        let mut text = decimal_string(n / 10);
        text.append(digit_text(n % 10));
        text
    }
}

/// The line that shows one link: both paths with their differences
/// coloured, or only the two ids.
pub open spec fn graph_line(
    source_id: usize,
    dest_id: usize,
    source_path: Seq<char>,
    dest_path: Seq<char>,
    display_paths: bool,
) -> Seq<char> {
    if display_paths {
        highlighted(text_diff(source_path, dest_path), Color::Red) + "  -->  "@ + highlighted(
            text_diff(dest_path, source_path),
            Color::Green,
        )
    } else {
        decimal(source_id as nat) + "  -->  "@ + decimal(dest_id as nat)
    }
}

impl UniqueLinks {
    /// The lines that show the plan, one per entry of the link map, once
    /// each, in the map's own order.
    pub fn graph_lines(&self, display_paths: bool) -> (r: Vec<String>)
        requires
            self.paths_known(),
        ensures
            exists|keys: Seq<usize>|
                {
                    &&& self.lists_links(keys)
                    &&& r@.len() == keys.len()
                    &&& forall|k: int|
                        0 <= k < r@.len() ==> (#[trigger] r@[k])@ == graph_line(
                            keys[k],
                            self.link_map@[keys[k]],
                            self.id_to_path@[keys[k]]@,
                            self.id_to_path@[self.link_map@[keys[k]]]@,
                            display_paths,
                        )
                },
    {
        let keys = self.link_keys();
        let mut out: Vec<String> = Vec::new();
        let mut i: usize = 0;
        while i < keys.len()
            invariant
                0 <= i <= keys@.len(),
                self.paths_known(),
                keys@.to_set() == self.link_map@.dom(),
                out@.len() == i,
                forall|k: int|
                    0 <= k < i ==> (#[trigger] out@[k])@ == graph_line(
                        keys@[k],
                        self.link_map@[keys@[k]],
                        self.id_to_path@[keys@[k]]@,
                        self.id_to_path@[self.link_map@[keys@[k]]]@,
                        display_paths,
                    ),
            decreases keys@.len() - i,
        {
            let key = keys[i];
            assert(keys@.to_set().contains(key));
            let dest_id = *self.link_map.get(&key).unwrap();
            let source_path = self.id_to_path.get(&key).unwrap();
            let dest_path = self.id_to_path.get(&dest_id).unwrap();
            let mut line = if display_paths {
                UniqueLinks::highlight_path_diff(source_path.as_str(), dest_path.as_str(), Color::Red)
            } else {
                decimal_string(key)
            };
            line.append("  -->  ");
            if display_paths {
                let right = UniqueLinks::highlight_path_diff(
                    dest_path.as_str(),
                    source_path.as_str(),
                    Color::Green,
                );
                line.append(right.as_str());
            } else {
                let right = decimal_string(dest_id);
                line.append(right.as_str());
            }
            out.push(line);
            i = i + 1;
        }
        assert(self.lists_links(keys@));
        out
    }
}

} // verus!

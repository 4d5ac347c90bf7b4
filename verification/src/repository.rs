//! The repository abstraction: one contract for listing, fetching,
//! searching, saving, and deleting workflow documents, implemented by a
//! directory-backed store, a git-backed store wrapping one, and a composite
//! that merges a local store with an upstream one.

use crate::error::{WorkflowError, WorkflowResult};
use crate::text::{
    contains_seq, contains_str, contains_string, eq_str, has_workflow_extension, is_workflow_path,
};
use crate::workflow::{Workflow, WorkflowView};
use crate::yaml::{parsed_workflow, workflow_from_yaml};
use vstd::prelude::*;

verus! {

/// One file found by a walk of a directory tree: its path and its text.
/// The caller reads the tree and hands the files in; the store decides
/// which of them are workflow documents.
pub struct FileEntry {
    pub path: String,
    pub text: String,
}

/// The mathematical content of a `FileEntry`.
#[verifier::ext_equal]
pub struct FileEntryView {
    pub path: Seq<char>,
    pub text: Seq<char>,
}

impl View for FileEntry {
    type V = FileEntryView;

    open spec fn view(&self) -> FileEntryView {
        FileEntryView { path: self.path@, text: self.text@ }
    }
}

impl DeepView for FileEntry {
    type V = FileEntryView;

    open spec fn deep_view(&self) -> FileEntryView {
        self.view()
    }
}

/// The workflow documents a walk's files hold: for each file with a `yaml`
/// or `yml` extension whose text's parse outcome is a workflow document,
/// that document, in the order the files come.
pub open spec fn loaded_documents(files: Seq<FileEntryView>) -> Seq<WorkflowView>
    decreases files.len(),
{
    if files.len() == 0 {
        Seq::empty()
    } else {
        let rest = loaded_documents(files.drop_first());
        if is_workflow_path(files[0].path) {
            match parsed_workflow(files[0].text) {
                Some(w) => seq![w] + rest,
                None => rest,
            }
        } else {
            rest
        }
    }
}

/// The first workflow in `ws` whose name is `name`.
pub open spec fn find_by_name(ws: Seq<WorkflowView>, name: Seq<char>) -> Option<WorkflowView>
    decreases ws.len(),
{
    if ws.len() == 0 {
        None
    } else if ws[0].name == name {
        Some(ws[0])
    } else {
        find_by_name(ws.drop_first(), name)
    }
}

/// Whether workflow `w` matches `query`: the query is a substring of the
/// name, a substring of the command, or equal to one of the tags.
pub open spec fn matches_query(w: WorkflowView, query: Seq<char>) -> bool {
    contains_seq(w.name, query) || contains_seq(w.command, query) || w.tags.contains(query)
}

/// `ws` without every workflow named `name`, in order.
pub open spec fn without_name(ws: Seq<WorkflowView>, name: Seq<char>) -> Seq<WorkflowView>
    decreases ws.len(),
{
    if ws.len() == 0 {
        Seq::empty()
    } else if ws[0].name == name {
        without_name(ws.drop_first(), name)
    } else {
        seq![ws[0]] + without_name(ws.drop_first(), name)
    }
}

/// The workflows of `ws` that match `query`, in order.
pub open spec fn matching(ws: Seq<WorkflowView>, query: Seq<char>) -> Seq<WorkflowView>
    decreases ws.len(),
{
    if ws.len() == 0 {
        Seq::empty()
    } else if matches_query(ws[0], query) {
        seq![ws[0]] + matching(ws.drop_first(), query)
    } else {
        matching(ws.drop_first(), query)
    }
}

/// How many workflows in `ws` are named `name`.
pub open spec fn count_named(ws: Seq<WorkflowView>, name: Seq<char>) -> nat
    decreases ws.len(),
{
    if ws.len() == 0 {
        0
    } else {
        (if ws[0].name == name {
            1nat
        } else {
            0nat
        }) + count_named(ws.drop_first(), name)
    }
}

/// The uniform contract of a workflow store: an ordered collection of
/// workflow documents split into a local part, which mutation reaches, and
/// an upstream part, which it never does.
pub trait WorkflowRepository: Sized {
    /// The documents of the store's mutable (local) part, in order.
    spec fn local_entries(&self) -> Seq<WorkflowView>;

    /// The documents of the store's read-only (upstream) part, in order.
    spec fn upstream_entries(&self) -> Seq<WorkflowView>;

    /// Whether a query that matches nothing still succeeds with an empty
    /// result instead of reporting `NotFound`.
    spec fn query_tolerates_empty(&self) -> bool;

    /// All documents the store shows, local part first.
    open spec fn entries(&self) -> Seq<WorkflowView> {
        self.local_entries() + self.upstream_entries()
    }

    /// A copy of the first document named `name`, or `NotFound(name)` when
    /// there is none.
    fn get_workflow(&self, name: &str) -> (r: WorkflowResult<Workflow>)
        ensures
            r matches Ok(w) ==> find_by_name(self.entries(), name@) == Some(w@),
            r matches Err(e) ==> find_by_name(self.entries(), name@) is None && (
            e matches WorkflowError::NotFound(s) && s@ == name@),
    ;

    /// A copy of every document, local part first; never fails.
    fn get_workflows(&self) -> (r: WorkflowResult<Vec<Workflow>>)
        ensures
            r matches Ok(ws) && ws.deep_view() == self.entries(),
    ;

    /// Appends `workflow` to the local part; a duplicate of an already
    /// stored name is permitted and kept. Never fails.
    fn save_workflow(&mut self, workflow: Workflow) -> (r: WorkflowResult<()>)
        ensures
            r is Ok,
            final(self).local_entries() == old(self).local_entries().push(workflow@),
            final(self).upstream_entries() == old(self).upstream_entries(),
    ;

    /// Removes every document named `name` from the local part; also
    /// succeeds, doing nothing, when none matches.
    fn delete_workflow(&mut self, name: &str) -> (r: WorkflowResult<()>)
        ensures
            r is Ok,
            final(self).local_entries() == without_name(old(self).local_entries(), name@),
            final(self).upstream_entries() == old(self).upstream_entries(),
    ;

    /// A copy of every document matching `query`, local part first. A query
    /// that matches nothing is `NotFound(query)` for a single store and an
    /// empty success for the merged view.
    fn query_workflows(&self, query: &str) -> (r: WorkflowResult<Vec<Workflow>>)
        ensures
            r matches Ok(ws) ==> ws.deep_view() == matching(self.entries(), query@),
            (r is Err) <==> (matching(self.entries(), query@).len() == 0
                && !self.query_tolerates_empty()),
            r matches Err(e) ==> (e matches WorkflowError::NotFound(s) && s@ == query@),
    ;
}

proof fn lemma_find_by_name_at(ws: Seq<WorkflowView>, name: Seq<char>, i: int)
    requires
        0 <= i < ws.len(),
        ws[i].name == name,
        forall|j: int| 0 <= j < i ==> ws[j].name != name,
    ensures
        find_by_name(ws, name) == Some(ws[i]),
    decreases ws.len(),
{
    if i > 0 {
        lemma_find_by_name_at(ws.drop_first(), name, i - 1);
    }
}

proof fn lemma_find_by_name_absent(ws: Seq<WorkflowView>, name: Seq<char>)
    requires
        forall|j: int| 0 <= j < ws.len() ==> ws[j].name != name,
    ensures
        find_by_name(ws, name) is None,
    decreases ws.len(),
{
    if ws.len() > 0 {
        lemma_find_by_name_absent(ws.drop_first(), name);
    }
}

/// Lookup in a concatenation finds the first part's entry when it has one,
/// and otherwise whatever the second part has.
pub proof fn lemma_find_by_name_add(a: Seq<WorkflowView>, b: Seq<WorkflowView>, name: Seq<char>)
    ensures
        find_by_name(a + b, name) == (if find_by_name(a, name) is Some {
            find_by_name(a, name)
        } else {
            find_by_name(b, name)
        }),
    decreases a.len(),
{
    if a.len() == 0 {
        assert(a + b =~= b);
    } else {
        assert((a + b).drop_first() =~= a.drop_first() + b);
        lemma_find_by_name_add(a.drop_first(), b, name);
    }
}

/// Law: when the local part contains a workflow with the requested name,
/// lookup in the merged view yields the local part's entry, whatever the
/// upstream part holds under that name.
pub proof fn lemma_local_precedence(
    local: Seq<WorkflowView>,
    upstream: Seq<WorkflowView>,
    name: Seq<char>,
)
    requires
        find_by_name(local, name) is Some,
    ensures
        find_by_name(local + upstream, name) == find_by_name(local, name),
{
    lemma_find_by_name_add(local, upstream, name);
}

proof fn lemma_count_named_add(a: Seq<WorkflowView>, b: Seq<WorkflowView>, name: Seq<char>)
    ensures
        count_named(a + b, name) == count_named(a, name) + count_named(b, name),
    decreases a.len(),
{
    if a.len() == 0 {
        assert(a + b =~= b);
    } else {
        assert((a + b).drop_first() =~= a.drop_first() + b);
        lemma_count_named_add(a.drop_first(), b, name);
    }
}

/// Law: a workflow saved to the local part is visible in the merged view,
/// and saving twice under one name leaves two entries with that name: saving
/// never deduplicates.
pub proof fn lemma_save_then_visible(
    local: Seq<WorkflowView>,
    upstream: Seq<WorkflowView>,
    w: WorkflowView,
)
    ensures
        (local.push(w) + upstream).contains(w),
        count_named(local.push(w).push(w) + upstream, w.name) == count_named(
            local + upstream,
            w.name,
        ) + 2,
{
    let saved_once = local.push(w) + upstream;
    assert(saved_once[local.len() as int] == w);
    assert(saved_once.contains(w));

    let twice = seq![w, w];
    assert(local.push(w).push(w) =~= local + twice);
    assert((local + twice) + upstream =~= local + (twice + upstream));
    lemma_count_named_add(local, twice + upstream, w.name);
    lemma_count_named_add(twice, upstream, w.name);
    lemma_count_named_add(local, upstream, w.name);
    assert(count_named(Seq::<WorkflowView>::empty(), w.name) == 0);
    assert(seq![w].drop_first() =~= Seq::<WorkflowView>::empty());
    assert(count_named(seq![w], w.name) == 1);
    assert(twice.drop_first() =~= seq![w]);
    assert(count_named(twice, w.name) == 2);
}

/// Law: removing a name leaves no workflow with that name behind, and is the
/// identity when no workflow had the name in the first place.
pub proof fn lemma_delete_removes_all(ws: Seq<WorkflowView>, name: Seq<char>)
    ensures
        forall|i: int|
            0 <= i < without_name(ws, name).len() ==> #[trigger] without_name(ws, name)[i].name
                != name,
        (forall|i: int| 0 <= i < ws.len() ==> #[trigger] ws[i].name != name) ==> without_name(
            ws,
            name,
        ) == ws,
    decreases ws.len(),
{
    if ws.len() > 0 {
        lemma_delete_removes_all(ws.drop_first(), name);
        if ws[0].name != name {
            assert(forall|j: int|
                0 <= j < ws.drop_first().len() ==> #[trigger] ws.drop_first()[j] == ws[j + 1]);
            if forall|i: int| 0 <= i < ws.len() ==> #[trigger] ws[i].name != name {
                assert(seq![ws[0]] + ws.drop_first() =~= ws);
            }
        }
    }
}

/// Matching distributes over concatenation: the merged view's matches are
/// the local matches followed by the upstream matches.
pub proof fn lemma_matching_add(a: Seq<WorkflowView>, b: Seq<WorkflowView>, query: Seq<char>)
    ensures
        matching(a + b, query) == matching(a, query) + matching(b, query),
    decreases a.len(),
{
    if a.len() == 0 {
        assert(a + b =~= b);
        assert(Seq::<WorkflowView>::empty() + matching(b, query) =~= matching(b, query));
    } else {
        assert((a + b).drop_first() =~= a.drop_first() + b);
        lemma_matching_add(a.drop_first(), b, query);
        if matches_query(a[0], query) {
            assert(seq![a[0]] + (matching(a.drop_first(), query) + matching(b, query)) =~= (
            seq![a[0]] + matching(a.drop_first(), query)) + matching(b, query));
        }
    }
}

/// Every match is drawn from the entries, matches the query, and appears in
/// source order; nothing that matches is dropped.
pub proof fn lemma_matching_members(ws: Seq<WorkflowView>, query: Seq<char>)
    ensures
        forall|i: int|
            0 <= i < matching(ws, query).len() ==> matches_query(
                #[trigger] matching(ws, query)[i],
                query,
            ) && ws.contains(matching(ws, query)[i]),
        forall|i: int|
            0 <= i < ws.len() && matches_query(#[trigger] ws[i], query) ==> matching(
                ws,
                query,
            ).contains(ws[i]),
    decreases ws.len(),
{
    if ws.len() > 0 {
        lemma_matching_members(ws.drop_first(), query);
        let tail = ws.drop_first();
        let mt = matching(tail, query);
        let m = matching(ws, query);
        assert forall|i: int| 0 <= i < m.len() implies matches_query(#[trigger] m[i], query)
            && ws.contains(m[i]) by {
            if matches_query(ws[0], query) {
                assert(m == seq![ws[0]] + mt);
                if i == 0 {
                    assert(m[i] == ws[0]);
                    assert(ws.contains(ws[0]));
                } else {
                    assert(m[i] == mt[i - 1]);
                    assert(tail.contains(mt[i - 1]));
                    let k = choose|k: int| 0 <= k < tail.len() && tail[k] == mt[i - 1];
                    assert(ws[k + 1] == m[i]);
                    assert(ws.contains(m[i]));
                }
            } else {
                assert(m == mt);
                assert(tail.contains(mt[i]));
                let k = choose|k: int| 0 <= k < tail.len() && tail[k] == mt[i];
                assert(ws[k + 1] == m[i]);
                assert(ws.contains(m[i]));
            }
        }
        assert forall|i: int|
            0 <= i < ws.len() && matches_query(#[trigger] ws[i], query) implies m.contains(
            ws[i],
        ) by {
            if matches_query(ws[0], query) {
                assert(m == seq![ws[0]] + mt);
            }
            if i == 0 {
                assert(m[0] == ws[0]);
                assert(m.contains(ws[0]));
            } else {
                assert(tail[i - 1] == ws[i]);
                assert(mt.contains(tail[i - 1]));
                let j = choose|j: int| 0 <= j < mt.len() && mt[j] == ws[i];
                if matches_query(ws[0], query) {
                    assert(m[j + 1] == ws[i]);
                    assert(m.contains(ws[i]));
                } else {
                    assert(m == mt);
                    assert(m.contains(ws[i]));
                }
            }
        }
    }
}

/// Loading splits over concatenation of the file list.
pub proof fn lemma_loaded_documents_add(a: Seq<FileEntryView>, b: Seq<FileEntryView>)
    ensures
        loaded_documents(a + b) == loaded_documents(a) + loaded_documents(b),
    decreases a.len(),
{
    if a.len() == 0 {
        assert(a + b =~= b);
        assert(Seq::<WorkflowView>::empty() + loaded_documents(b) =~= loaded_documents(b));
    } else {
        assert((a + b).drop_first() =~= a.drop_first() + b);
        lemma_loaded_documents_add(a.drop_first(), b);
        if is_workflow_path(a[0].path) && parsed_workflow(a[0].text) is Some {
            let w = parsed_workflow(a[0].text).unwrap();
            assert(seq![w] + (loaded_documents(a.drop_first()) + loaded_documents(b)) =~= (
            seq![w] + loaded_documents(a.drop_first())) + loaded_documents(b));
        }
    }
}

/// Law: in a tree of only well-formed workflow files, loading yields
/// exactly one document per file, each the parse outcome of its file's
/// text, in order.
pub proof fn lemma_all_files_load(files: Seq<FileEntryView>)
    requires
        forall|i: int|
            0 <= i < files.len() ==> is_workflow_path(#[trigger] files[i].path)
                && parsed_workflow(files[i].text) is Some,
    ensures
        loaded_documents(files).len() == files.len(),
        forall|i: int|
            0 <= i < files.len() ==> #[trigger] loaded_documents(files)[i] == parsed_workflow(
                files[i].text,
            ).unwrap(),
    decreases files.len(),
{
    if files.len() > 0 {
        let tail = files.drop_first();
        assert(forall|j: int| 0 <= j < tail.len() ==> #[trigger] tail[j] == files[j + 1]);
        lemma_all_files_load(tail);
        assert(is_workflow_path(files[0].path) && parsed_workflow(files[0].text) is Some);
        let w = parsed_workflow(files[0].text).unwrap();
        assert(loaded_documents(files) == seq![w] + loaded_documents(tail));
        assert(forall|i: int|
            0 < i < files.len() ==> #[trigger] loaded_documents(files)[i] == loaded_documents(
                tail,
            )[i - 1]);
    }
}

/// Law: a file that is not a workflow document — wrong extension, malformed
/// text, or text that does not follow the schema — changes nothing: the
/// other files load exactly as if it were absent.
pub proof fn lemma_malformed_file_skipped(
    before: Seq<FileEntryView>,
    f: FileEntryView,
    after: Seq<FileEntryView>,
)
    requires
        !is_workflow_path(f.path) || parsed_workflow(f.text) is None,
    ensures
        loaded_documents(before + seq![f] + after) == loaded_documents(before + after),
{
    lemma_loaded_documents_add(before + seq![f], after);
    lemma_loaded_documents_add(before, seq![f]);
    lemma_loaded_documents_add(before, after);
    assert(seq![f].drop_first() =~= Seq::<FileEntryView>::empty());
    assert(loaded_documents(Seq::<FileEntryView>::empty()) =~= Seq::<WorkflowView>::empty());
    assert(seq![f][0] == f);
    assert(loaded_documents(seq![f]) =~= Seq::<WorkflowView>::empty());
    assert(loaded_documents(before) + Seq::<WorkflowView>::empty() =~= loaded_documents(before));
}

/// Whether workflow `w` matches `query`.
pub fn matches_workflow(w: &Workflow, query: &str) -> (r: bool)
    ensures
        r == matches_query(w@, query@),
{
    if contains_str(w.name.as_str(), query) {
        return true;
    }
    if contains_str(w.command.as_str(), query) {
        return true;
    }
    let in_tags = contains_string(&w.tags, query);
    proof {
        if exists|j: int| 0 <= j < w.tags@.len() && w.tags@[j]@ == query@ {
            let j = choose|j: int| 0 <= j < w.tags@.len() && w.tags@[j]@ == query@;
            assert(w@.tags[j] == query@);
            assert(w@.tags.contains(query@));
        }
        if w@.tags.contains(query@) {
            let j = choose|j: int| 0 <= j < w@.tags.len() && w@.tags[j] == query@;
            assert(w.tags@[j]@ == query@);
        }
    }
    in_tags
}

/// The workflow documents among `files`: every file whose extension is
/// `yaml` or `yml` and whose text's parse outcome is a workflow document,
/// in the order given. A file that does not parse is skipped, so a
/// malformed file cannot prevent its siblings from loading.
fn load_workflows(files: &Vec<FileEntry>) -> (r: Vec<Workflow>)
    ensures
        r.deep_view() == loaded_documents(files.deep_view()),
{
    let ghost fv = files.deep_view();
    let mut out: Vec<Workflow> = Vec::new();
    let mut i: usize = 0;
    proof {
        assert(fv.subrange(0, fv.len() as int) =~= fv);
        assert(out.deep_view() + loaded_documents(fv) =~= loaded_documents(fv));
    }
    while i < files.len()
        invariant
            i <= files@.len(),
            fv == files.deep_view(),
            fv.len() == files@.len(),
            loaded_documents(fv) == out.deep_view() + loaded_documents(
                fv.subrange(i as int, fv.len() as int),
            ),
        decreases files@.len() - i,
    {
        let ghost tail = fv.subrange(i as int, fv.len() as int);
        let ghost out_prev = out.deep_view();
        proof {
            assert(tail[0] == fv[i as int]);
            assert(tail.drop_first() =~= fv.subrange(i + 1, fv.len() as int));
        }
        let f = &files[i];
        if has_workflow_extension(f.path.as_str()) {
            match workflow_from_yaml(f.text.as_str()) {
                Some(w) => {
                    let ghost wv = w@;
                    out.push(w);
                    proof {
                        assert(out.deep_view() =~= out_prev.push(wv));
                        let rest = loaded_documents(tail.drop_first());
                        assert(out_prev + (seq![wv] + rest) =~= out_prev.push(wv) + rest);
                    }
                },
                None => {},
            }
        }
        i += 1;
    }
    proof {
        assert(fv.subrange(fv.len() as int, fv.len() as int).len() == 0);
        assert(out.deep_view() + loaded_documents(
            fv.subrange(fv.len() as int, fv.len() as int),
        ) =~= out.deep_view());
    }
    out
}

/// A store over the workflow files of one directory tree, held in memory in
/// the order the walk found them.
pub struct DirectoryRepository {
    root: String,
    workflows: Vec<Workflow>,
}

impl DirectoryRepository {
    /// A store over the workflow files of a directory tree: `root` names the
    /// directory, `files` holds the files a walk of it found.
    pub fn new(root: String, files: &Vec<FileEntry>) -> (r: Self)
        ensures
            r.local_entries() == loaded_documents(files.deep_view()),
            r.upstream_entries() == Seq::<WorkflowView>::empty(),
    {
        DirectoryRepository { root, workflows: load_workflows(files) }
    }

    /// Drops the documents held in memory and loads `files`, a fresh walk of
    /// the same tree, instead.
    pub fn refresh(&mut self, files: &Vec<FileEntry>) -> (r: WorkflowResult<()>)
        ensures
            r is Ok,
            final(self).local_entries() == loaded_documents(files.deep_view()),
    {
        self.workflows = load_workflows(files);
        Ok(())
    }
}

impl WorkflowRepository for DirectoryRepository {
    closed spec fn local_entries(&self) -> Seq<WorkflowView> {
        self.workflows.deep_view()
    }

    open spec fn upstream_entries(&self) -> Seq<WorkflowView> {
        Seq::empty()
    }

    open spec fn query_tolerates_empty(&self) -> bool {
        false
    }

    fn get_workflow(&self, name: &str) -> (r: WorkflowResult<Workflow>) {
        let ghost dv = self.workflows.deep_view();
        proof {
            assert(self.entries() =~= dv);
        }
        let n = self.workflows.len();
        let mut i: usize = 0;
        while i < n
            invariant
                i <= n,
                n == self.workflows@.len(),
                dv == self.workflows.deep_view(),
                forall|j: int| 0 <= j < i ==> #[trigger] dv[j].name != name@,
            decreases n - i,
        {
            let w = &self.workflows[i];
            if eq_str(w.name.as_str(), name) {
                proof {
                    lemma_find_by_name_at(dv, name@, i as int);
                }
                return Ok(w.clone());
            }
            i += 1;
        }
        proof {
            lemma_find_by_name_absent(dv, name@);
        }
        Err(WorkflowError::NotFound(name.to_owned()))
    }

    fn get_workflows(&self) -> (r: WorkflowResult<Vec<Workflow>>) {
        let ghost dv = self.workflows.deep_view();
        let n = self.workflows.len();
        let mut out: Vec<Workflow> = Vec::new();
        let mut i: usize = 0;
        while i < n
            invariant
                i <= n,
                n == self.workflows@.len(),
                dv == self.workflows.deep_view(),
                out.deep_view() =~= dv.subrange(0, i as int),
            decreases n - i,
        {
            let ghost prev = out.deep_view();
            out.push(self.workflows[i].clone());
            proof {
                assert(out.deep_view() =~= prev.push(dv[i as int]));
                assert(prev.push(dv[i as int]) =~= dv.subrange(0, i + 1));
            }
            i += 1;
        }
        proof {
            assert(dv.subrange(0, n as int) =~= dv);
            assert(self.entries() =~= dv);
        }
        Ok(out)
    }

    fn save_workflow(&mut self, workflow: Workflow) -> (r: WorkflowResult<()>) {
        let ghost prev = self.workflows.deep_view();
        let ghost wv = workflow@;
        self.workflows.push(workflow);
        proof {
            assert(self.workflows.deep_view() =~= prev.push(wv));
        }
        Ok(())
    }

    fn delete_workflow(&mut self, name: &str) -> (r: WorkflowResult<()>) {
        let ghost dv = self.workflows.deep_view();
        let n = self.workflows.len();
        let mut kept: Vec<Workflow> = Vec::new();
        let mut i: usize = 0;
        proof {
            assert(dv.subrange(0, dv.len() as int) =~= dv);
            assert(kept.deep_view() + without_name(dv, name@) =~= without_name(dv, name@));
        }
        while i < n
            invariant
                i <= n,
                n == self.workflows@.len(),
                self.workflows == old(self).workflows,
                dv == self.workflows.deep_view(),
                without_name(dv, name@) == kept.deep_view() + without_name(
                    dv.subrange(i as int, dv.len() as int),
                    name@,
                ),
            decreases n - i,
        {
            let ghost tail = dv.subrange(i as int, dv.len() as int);
            let ghost kept_prev = kept.deep_view();
            let w = &self.workflows[i];
            if !eq_str(w.name.as_str(), name) {
                kept.push(w.clone());
                proof {
                    assert(kept.deep_view() =~= kept_prev.push(dv[i as int]));
                    assert(tail.drop_first() =~= dv.subrange(i + 1, dv.len() as int));
                    let rest = without_name(tail.drop_first(), name@);
                    assert(kept_prev + (seq![tail[0]] + rest) =~= kept_prev.push(dv[i as int])
                        + rest);
                }
            } else {
                proof {
                    assert(tail.drop_first() =~= dv.subrange(i + 1, dv.len() as int));
                }
            }
            i += 1;
        }
        proof {
            assert(dv.subrange(n as int, dv.len() as int).len() == 0);
            assert(kept.deep_view() + without_name(
                dv.subrange(n as int, dv.len() as int),
                name@,
            ) =~= kept.deep_view());
        }
        self.workflows = kept;
        Ok(())
    }

    fn query_workflows(&self, query: &str) -> (r: WorkflowResult<Vec<Workflow>>) {
        let ghost dv = self.workflows.deep_view();
        let n = self.workflows.len();
        let mut found: Vec<Workflow> = Vec::new();
        let mut i: usize = 0;
        proof {
            assert(dv.subrange(0, dv.len() as int) =~= dv);
            assert(found.deep_view() + matching(dv, query@) =~= matching(dv, query@));
        }
        while i < n
            invariant
                i <= n,
                n == self.workflows@.len(),
                dv == self.workflows.deep_view(),
                matching(dv, query@) == found.deep_view() + matching(
                    dv.subrange(i as int, dv.len() as int),
                    query@,
                ),
            decreases n - i,
        {
            let ghost tail = dv.subrange(i as int, dv.len() as int);
            let ghost found_prev = found.deep_view();
            let w = &self.workflows[i];
            if matches_workflow(w, query) {
                found.push(w.clone());
                proof {
                    assert(found.deep_view() =~= found_prev.push(dv[i as int]));
                    assert(tail.drop_first() =~= dv.subrange(i + 1, dv.len() as int));
                    let rest = matching(tail.drop_first(), query@);
                    assert(found_prev + (seq![tail[0]] + rest) =~= found_prev.push(dv[i as int])
                        + rest);
                }
            } else {
                proof {
                    assert(tail.drop_first() =~= dv.subrange(i + 1, dv.len() as int));
                }
            }
            i += 1;
        }
        proof {
            assert(dv.subrange(n as int, dv.len() as int).len() == 0);
            assert(found.deep_view() + matching(
                dv.subrange(n as int, dv.len() as int),
                query@,
            ) =~= found.deep_view());
            assert(self.entries() =~= dv);
        }
        if found.len() > 0 {
            Ok(found)
        } else {
            proof {
                assert(matching(dv, query@) =~= found.deep_view());
            }
            Err(WorkflowError::NotFound(query.to_owned()))
        }
    }
}

/// A store over a local clone of a remote git repository. Cloning is the
/// caller's to perform before construction — and may have failed: the store
/// then sees whatever the walk of the clone's path found (nothing, or a
/// stale or partial tree), so that an offline start still works. All
/// document operations delegate to the directory store over the clone.
pub struct GitRepository {
    url: String,
    branch: String,
    root: String,
    directory_repository: DirectoryRepository,
}

impl GitRepository {
    /// A store over the clone of `url` (branch `branch`) at `root`, loaded
    /// from `files`, the files a walk of `root` found.
    pub fn new(url: &str, branch: &str, root: String, files: &Vec<FileEntry>) -> (r: Self)
        ensures
            r.url_text()@ == url@,
            r.branch_text()@ == branch@,
            r.local_entries() == loaded_documents(files.deep_view()),
            r.upstream_entries() == Seq::<WorkflowView>::empty(),
    {
        let local_root = root.clone();
        GitRepository {
            url: url.to_owned(),
            branch: branch.to_owned(),
            root,
            directory_repository: DirectoryRepository::new(local_root, files),
        }
    }

    /// The remote URL this store was cloned from.
    pub closed spec fn url_text(&self) -> String {
        self.url
    }

    /// The branch recorded for the clone.
    pub closed spec fn branch_text(&self) -> String {
        self.branch
    }

    /// Reloads the documents from `files`, a fresh walk of the clone's
    /// path. The remote is not contacted again: refreshing never re-pulls.
    pub fn refresh(&mut self, files: &Vec<FileEntry>) -> (r: WorkflowResult<()>)
        ensures
            r is Ok,
            final(self).local_entries() == loaded_documents(files.deep_view()),
    {
        self.directory_repository.refresh(files)
    }
}

impl WorkflowRepository for GitRepository {
    closed spec fn local_entries(&self) -> Seq<WorkflowView> {
        self.directory_repository.local_entries()
    }

    open spec fn upstream_entries(&self) -> Seq<WorkflowView> {
        Seq::empty()
    }

    open spec fn query_tolerates_empty(&self) -> bool {
        false
    }

    fn get_workflow(&self, name: &str) -> (r: WorkflowResult<Workflow>) {
        proof {
            assert(self.entries() =~= self.directory_repository.entries());
        }
        self.directory_repository.get_workflow(name)
    }

    fn get_workflows(&self) -> (r: WorkflowResult<Vec<Workflow>>) {
        proof {
            assert(self.entries() =~= self.directory_repository.entries());
        }
        self.directory_repository.get_workflows()
    }

    fn save_workflow(&mut self, workflow: Workflow) -> (r: WorkflowResult<()>) {
        self.directory_repository.save_workflow(workflow)
    }

    fn delete_workflow(&mut self, name: &str) -> (r: WorkflowResult<()>) {
        self.directory_repository.delete_workflow(name)
    }

    fn query_workflows(&self, query: &str) -> (r: WorkflowResult<Vec<Workflow>>) {
        proof {
            assert(self.entries() =~= self.directory_repository.entries());
        }
        self.directory_repository.query_workflows(query)
    }
}

/// The merged view over a local directory store and a git-backed upstream
/// store: reads see both parts, the local one first; writes reach only the
/// local store, since the upstream is the clone of a shared source of truth.
pub struct CompositeRepository {
    local: DirectoryRepository,
    upstream: GitRepository,
}

impl CompositeRepository {
    pub fn new(local: DirectoryRepository, upstream: GitRepository) -> (r: Self)
        ensures
            r.local_entries() == local.entries(),
            r.upstream_entries() == upstream.entries(),
    {
        CompositeRepository { local, upstream }
    }

    /// Reloads both stores, the local one first, each from a fresh walk of
    /// its own tree; the merged reload always succeeds.
    pub fn refresh(
        &mut self,
        local_files: &Vec<FileEntry>,
        upstream_files: &Vec<FileEntry>,
    ) -> (r: WorkflowResult<()>)
        ensures
            r is Ok,
            final(self).local_entries() == loaded_documents(local_files.deep_view()),
            final(self).upstream_entries() == loaded_documents(upstream_files.deep_view()),
    {
        let local_outcome = self.local.refresh(local_files);
        let upstream_outcome = self.upstream.refresh(upstream_files);
        proof {
            assert(self.local.entries() =~= self.local.local_entries());
            assert(self.upstream.entries() =~= self.upstream.local_entries());
        }
        match (local_outcome, upstream_outcome) {
            (Ok(()), Ok(())) => Ok(()),
            (_, r2) => r2,
        }
    }
}

impl WorkflowRepository for CompositeRepository {
    closed spec fn local_entries(&self) -> Seq<WorkflowView> {
        self.local.entries()
    }

    closed spec fn upstream_entries(&self) -> Seq<WorkflowView> {
        self.upstream.entries()
    }

    open spec fn query_tolerates_empty(&self) -> bool {
        true
    }

    fn get_workflow(&self, name: &str) -> (r: WorkflowResult<Workflow>) {
        proof {
            lemma_find_by_name_add(self.local.entries(), self.upstream.entries(), name@);
        }
        match self.local.get_workflow(name) {
            Ok(w) => Ok(w),
            Err(_) => match self.upstream.get_workflow(name) {
                Ok(w) => Ok(w),
                Err(_) => Err(WorkflowError::NotFound(name.to_owned())),
            },
        }
    }

    fn get_workflows(&self) -> (r: WorkflowResult<Vec<Workflow>>) {
        let mut all = match self.local.get_workflows() {
            Ok(ws) => ws,
            Err(e) => {
                return Err(e);
            },
        };
        let mut upstream_all = match self.upstream.get_workflows() {
            Ok(ws) => ws,
            Err(e) => {
                return Err(e);
            },
        };
        let ghost local_dv = all.deep_view();
        let ghost upstream_dv = upstream_all.deep_view();
        all.append(&mut upstream_all);
        proof {
            assert(all.deep_view() =~= local_dv + upstream_dv);
        }
        Ok(all)
    }

    fn save_workflow(&mut self, workflow: Workflow) -> (r: WorkflowResult<()>) {
        let ghost wv = workflow@;
        let outcome = self.local.save_workflow(workflow);
        proof {
            assert(self.local.entries() =~= old(self).local.entries().push(wv));
        }
        outcome
    }

    fn delete_workflow(&mut self, name: &str) -> (r: WorkflowResult<()>) {
        let outcome = self.local.delete_workflow(name);
        proof {
            assert(old(self).local.entries() =~= old(self).local.local_entries());
            assert(self.local.entries() =~= self.local.local_entries());
        }
        outcome
    }

    fn query_workflows(&self, query: &str) -> (r: WorkflowResult<Vec<Workflow>>) {
        let mut found: Vec<Workflow> = Vec::new();
        let ghost local_matches = matching(self.local.entries(), query@);
        let ghost upstream_matches = matching(self.upstream.entries(), query@);
        proof {
            lemma_matching_add(self.local.entries(), self.upstream.entries(), query@);
        }
        match self.local.query_workflows(query) {
            Ok(mut ws) => {
                found.append(&mut ws);
            },
            Err(_) => {},
        }
        let ghost after_local = found.deep_view();
        proof {
            assert(after_local =~= local_matches);
        }
        match self.upstream.query_workflows(query) {
            Ok(mut ws) => {
                found.append(&mut ws);
            },
            Err(_) => {},
        }
        proof {
            assert(found.deep_view() =~= local_matches + upstream_matches);
        }
        Ok(found)
    }
}

} // verus!

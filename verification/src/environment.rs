//! Revisioned per-window dataset registry.
//!
//! A mutation is staged as a complete proposed registry (a [`Proposal`]),
//! which the caller validates by opening a fresh database catalog from its
//! [`Proposal::script`] before applying it. Files receive stable automatic
//! SQL names (`data`, `data1`, `data2`, ...) that users can replace with
//! validated identifiers.

use crate::cache::CacheArtifact;
use crate::error::{no_data_message, AppError, AppResult};
use crate::model::{ColumnInfo, EnvironmentInfo, FileInfo, ImportOptions};
use crate::paths::{file_name, file_name_of, path_eq, same_path};
use crate::text::{
    decimal, decimal_string, eq_ignore_ascii_case, quote_ident, quoted_ident, sql_str,
    sql_string_body, str_eq, str_eq_ignore_ascii_case, trim, trim_str,
};
use vstd::prelude::*;
use vstd::string::*;
use vstd::utf8::encode_utf8;

verus! {

/// What the registry records of one open file.
pub struct FileView {
    pub id: u64,
    pub source_path: Seq<char>,
    pub identity_path: Seq<char>,
    pub db_path: Seq<char>,
    pub alias: Seq<char>,
    pub relation_name: Seq<char>,
    pub columns: Seq<ColumnInfo>,
    pub row_count: u64,
    pub cached: bool,
    pub import_options: ImportOptions,
}

/// One file open in a window, holding a lease on its cache artifact.
pub struct OpenFile<L> {
    id: u64,
    source_path: String,
    identity_path: String,
    db_path: String,
    alias: String,
    relation_name: String,
    columns: Vec<ColumnInfo>,
    row_count: u64,
    cached: bool,
    import_options: ImportOptions,
    lease: L,
}

impl<L> View for OpenFile<L> {
    type V = FileView;

    closed spec fn view(&self) -> FileView {
        FileView {
            id: self.id,
            source_path: self.source_path@,
            identity_path: self.identity_path@,
            db_path: self.db_path@,
            alias: self.alias@,
            relation_name: self.relation_name@,
            columns: self.columns@,
            row_count: self.row_count,
            cached: self.cached,
            import_options: self.import_options,
        }
    }
}

impl<L> OpenFile<L> {
    /// The lease this file holds on its cache artifact.
    pub closed spec fn held_lease(&self) -> L {
        self.lease
    }
}

impl<L: Clone> Clone for OpenFile<L> {
    fn clone(&self) -> (r: Self)
        ensures
            r@ == self@,
            cloned::<L>(self.held_lease(), r.held_lease()),
    {
        let columns = self.columns.clone();
        assert(columns@ =~= self.columns@);
        OpenFile {
            id: self.id,
            source_path: self.source_path.clone(),
            identity_path: self.identity_path.clone(),
            db_path: self.db_path.clone(),
            alias: self.alias.clone(),
            relation_name: self.relation_name.clone(),
            columns,
            row_count: self.row_count,
            cached: self.cached,
            import_options: self.import_options.clone(),
            lease: self.lease.clone(),
        }
    }
}

/// The leases held by a list of open files, in order.
pub open spec fn file_leases<L>(files: Seq<OpenFile<L>>) -> Seq<L> {
    Seq::new(files.len(), |i: int| files[i].held_lease())
}

/// Each lease of `b` is a clone of the lease at the same position of `a`.
pub open spec fn leases_cloned<L: Clone>(a: Seq<L>, b: Seq<L>) -> bool {
    &&& a.len() == b.len()
    &&& forall|i: int| 0 <= i < a.len() ==> cloned::<L>(a[i], b[i])
}

/// The registry records of a list of open files.
pub open spec fn views<L>(files: Seq<OpenFile<L>>) -> Seq<FileView> {
    Seq::new(files.len(), |i: int| files[i]@)
}

/// The SQL name of the file added at position `index` of a window's history:
/// `data` for the first, `dataN` afterwards.
pub open spec fn automatic_name(index: nat) -> Seq<char> {
    if index == 0 {
        "data"@
    } else {
        "data"@ + decimal(index)
    }
}

/// The schema alias under which the file with id `id` is attached.
pub open spec fn source_alias(id: nat) -> Seq<char> {
    "src_"@ + decimal(id)
}

/// The automatic SQL name for the `index`-th file added to a window.
pub fn automatic_relation_name(index: u64) -> (r: String)
    ensures
        r@ == automatic_name(index as nat),
{
    if index == 0 {
        String::from_str("data")
    } else {
        String::from_str("data").concat(decimal_string(index as u128).as_str())
    }
}

fn alias_for(id: u64) -> (r: String)
    ensures
        r@ == source_alias(id as nat),
{
    String::from_str("src_").concat(decimal_string(id as u128).as_str())
}

/// What a window's registry holds.
pub struct EnvView {
    pub files: Seq<FileView>,
    pub revision: u64,
    pub next_dataset_id: u64,
    pub next_relation_index: u64,
}

/// Open files are ordered by strictly increasing id, every id is below the
/// next id to hand out, and no two files share an identity path.
pub open spec fn registry_wf(files: Seq<FileView>, next_dataset_id: u64) -> bool {
    &&& forall|i: int, j: int| 0 <= i < j < files.len() ==> files[i].id < files[j].id
    &&& forall|i: int| 0 <= i < files.len() ==> files[i].id < next_dataset_id
    &&& forall|i: int, j: int|
        0 <= i < j < files.len() ==> !same_path(files[i].identity_path, files[j].identity_path)
}

/// The revision after a published change.
pub open spec fn next_revision(revision: u64) -> u64 {
    if revision == u64::MAX {
        revision
    } else {
        (revision + 1) as u64
    }
}

/// One window's set of open files.
pub struct Environment<L> {
    files: Vec<OpenFile<L>>,
    revision: u64,
    next_dataset_id: u64,
    next_relation_index: u64,
}

impl<L> View for Environment<L> {
    type V = EnvView;

    closed spec fn view(&self) -> EnvView {
        EnvView {
            files: views(self.files@),
            revision: self.revision,
            next_dataset_id: self.next_dataset_id,
            next_relation_index: self.next_relation_index,
        }
    }
}

/// The registry that a proposal would publish, and the registry it was
/// prepared from.
pub struct ProposalView {
    pub files: Seq<FileView>,
    pub next_dataset_id: u64,
    pub next_relation_index: u64,
    pub changed: bool,
    pub base: EnvView,
}

/// A staged, not yet published change to a window's registry.
pub struct Proposal<L> {
    files: Vec<OpenFile<L>>,
    next_dataset_id: u64,
    next_relation_index: u64,
    changed: bool,
    base: Ghost<EnvView>,
}

impl<L> View for Proposal<L> {
    type V = ProposalView;

    closed spec fn view(&self) -> ProposalView {
        ProposalView {
            files: views(self.files@),
            next_dataset_id: self.next_dataset_id,
            next_relation_index: self.next_relation_index,
            changed: self.changed,
            base: self.base@,
        }
    }
}

/// An immutable snapshot of a window's files, captured by a query session.
pub struct QueryPlan<L> {
    pub revision: u64,
    files: Vec<OpenFile<L>>,
}

/// What a query plan holds.
pub struct PlanView {
    pub revision: u64,
    pub files: Seq<FileView>,
}

impl<L> View for QueryPlan<L> {
    type V = PlanView;

    closed spec fn view(&self) -> PlanView {
        PlanView { revision: self.revision, files: views(self.files@) }
    }
}

fn clone_files<L: Clone>(files: &Vec<OpenFile<L>>) -> (r: Vec<OpenFile<L>>)
    ensures
        views(r@) == views(files@),
        leases_cloned(file_leases(files@), file_leases(r@)),
{
    let r = files.clone();
    assert forall|i: int| 0 <= i < files@.len() implies r@[i]@ == files@[i]@ && cloned::<L>(
        files@[i].held_lease(),
        r@[i].held_lease(),
    ) by {
        assert(cloned::<OpenFile<L>>(files[i], r[i]));
    }
    assert(views(r@) =~= views(files@));
    r
}

/// The statement that attaches one file's database read-only.
pub open spec fn attach_statement(f: FileView) -> Seq<char> {
    "ATTACH '"@ + sql_string_body(f.db_path) + "' AS "@ + f.alias + " (READ_ONLY)"@
}

/// The statement that exposes one file under its SQL name.
pub open spec fn view_statement(f: FileView) -> Seq<char> {
    "CREATE VIEW "@ + quoted_ident(f.relation_name) + " AS SELECT * FROM "@ + f.alias + ".data"@
}

/// The statements that build a catalog for `files`: every attachment first,
/// then every view, each in file order.
pub open spec fn catalog_statements(files: Seq<FileView>) -> Seq<Seq<char>> {
    Seq::new(files.len(), |i: int| attach_statement(files[i])) + Seq::new(
        files.len(),
        |i: int| view_statement(files[i]),
    )
}

/// The texts of a list of strings.
pub open spec fn texts(v: Seq<String>) -> Seq<Seq<char>> {
    Seq::new(v.len(), |i: int| v[i]@)
}

fn attach_sql<L>(f: &OpenFile<L>) -> (r: String)
    ensures
        r@ == attach_statement(f@),
{
    let s = String::from_str("ATTACH '").concat(sql_str(f.db_path.as_str()).as_str()).concat(
        "' AS ",
    ).concat(f.alias.as_str()).concat(" (READ_ONLY)");
    s
}

fn view_sql<L>(f: &OpenFile<L>) -> (r: String)
    ensures
        r@ == view_statement(f@),
{
    String::from_str("CREATE VIEW ").concat(quote_ident(f.relation_name.as_str()).as_str()).concat(
        " AS SELECT * FROM ",
    ).concat(f.alias.as_str()).concat(".data")
}

/// The statements that open a catalog over `files`.
fn catalog_sql<L>(files: &Vec<OpenFile<L>>) -> (r: Vec<String>)
    ensures
        texts(r@) == catalog_statements(views(files@)),
{
    let n = files.len();
    let mut out: Vec<String> = Vec::new();
    let mut i: usize = 0;
    while i < n
        invariant
            n == files@.len(),
            i <= n,
            out@.len() == i,
            texts(out@) =~= Seq::new(i as nat, |k: int| attach_statement(views(files@)[k])),
        decreases n - i,
    {
        let ghost before = out@;
        out.push(attach_sql(&files[i]));
        assert(views(files@)[i as int] == files@[i as int]@);
        assert(out@ == before.push(out@[i as int]));
        assert(texts(out@) =~= texts(before).push(attach_statement(views(files@)[i as int])));
        i = i + 1;
    }
    let mut j: usize = 0;
    while j < n
        invariant
            n == files@.len(),
            j <= n,
            out@.len() == n + j,
            texts(out@) =~= Seq::new(n as nat, |k: int| attach_statement(views(files@)[k]))
                + Seq::new(j as nat, |k: int| view_statement(views(files@)[k])),
        decreases n - j,
    {
        let ghost before = out@;
        out.push(view_sql(&files[j]));
        assert(views(files@)[j as int] == files@[j as int]@);
        assert(out@ == before.push(out@[n + j]));
        assert(texts(out@) =~= texts(before).push(view_statement(views(files@)[j as int])));
        j = j + 1;
    }
    out
}

/// A proposal keeps its registry well formed, hands out ids and automatic
/// names that never go back, and is unchanged from its base until it is.
pub open spec fn proposal_wf(p: ProposalView) -> bool {
    &&& registry_wf(p.files, p.next_dataset_id)
    &&& p.next_dataset_id >= p.base.next_dataset_id
    &&& p.next_relation_index >= p.base.next_relation_index
    &&& !p.changed ==> p.files == p.base.files && p.next_dataset_id == p.base.next_dataset_id
        && p.next_relation_index == p.base.next_relation_index
}

/// What the caller supplies for a newly opened file.
pub struct StagedSource {
    pub source_path: Seq<char>,
    pub identity_path: Seq<char>,
    pub db_path: Seq<char>,
    pub columns: Seq<ColumnInfo>,
    pub row_count: u64,
    pub cached: bool,
    pub options: ImportOptions,
}

/// The record of a newly opened file with id `id` and automatic name index
/// `index`.
pub open spec fn staged_file(id: u64, index: u64, s: StagedSource) -> FileView {
    FileView {
        id,
        source_path: s.source_path,
        identity_path: s.identity_path,
        db_path: s.db_path,
        alias: source_alias(id as nat),
        relation_name: automatic_name(index as nat),
        columns: s.columns,
        row_count: s.row_count,
        cached: s.cached,
        import_options: s.options,
    }
}

/// The proposal `p` with one more file staged.
pub open spec fn staged(p: ProposalView, s: StagedSource) -> ProposalView {
    ProposalView {
        files: p.files.push(staged_file(p.next_dataset_id, p.next_relation_index, s)),
        next_dataset_id: (p.next_dataset_id + 1) as u64,
        next_relation_index: (p.next_relation_index + 1) as u64,
        changed: true,
        base: p.base,
    }
}

/// A batch of additions that has not staged anything yet.
pub open spec fn opened(e: EnvView) -> ProposalView {
    ProposalView {
        files: e.files,
        next_dataset_id: e.next_dataset_id,
        next_relation_index: e.next_relation_index,
        changed: false,
        base: e,
    }
}

/// Closing the file at `index`.
pub open spec fn removal(e: EnvView, index: int) -> ProposalView {
    ProposalView {
        files: e.files.remove(index),
        next_dataset_id: e.next_dataset_id,
        next_relation_index: e.next_relation_index,
        changed: true,
        base: e,
    }
}

/// Replacing the record of the file at `index` by `f`.
pub open spec fn reconfiguration(e: EnvView, index: int, f: FileView) -> ProposalView {
    ProposalView {
        files: e.files.update(index, f),
        next_dataset_id: e.next_dataset_id,
        next_relation_index: e.next_relation_index,
        changed: true,
        base: e,
    }
}

/// The registry after publishing `p`.
pub open spec fn applied(e: EnvView, p: ProposalView) -> EnvView {
    if p.changed {
        EnvView {
            files: p.files,
            revision: next_revision(e.revision),
            next_dataset_id: p.next_dataset_id,
            next_relation_index: p.next_relation_index,
        }
    } else {
        e
    }
}

/// `f` re-imported from a new artifact under a new SQL name; its identity,
/// id and alias are kept.
pub open spec fn reconfigured_file(
    f: FileView,
    relation_name: Seq<char>,
    db_path: Seq<char>,
    columns: Seq<ColumnInfo>,
    row_count: u64,
    cached: bool,
    options: ImportOptions,
) -> FileView {
    FileView {
        id: f.id,
        source_path: f.source_path,
        identity_path: f.identity_path,
        db_path,
        alias: f.alias,
        relation_name,
        columns,
        row_count,
        cached,
        import_options: options,
    }
}

impl<L> Proposal<L> {
    #[verifier::type_invariant]
    spec fn inv(self) -> bool {
        proposal_wf(self@)
    }

    /// The leases the proposed files hold, in file order.
    pub closed spec fn leases(&self) -> Seq<L> {
        file_leases(self.files@)
    }

    /// Whether the proposal differs from the registry it was prepared from.
    pub fn is_changed(&self) -> (r: bool)
        ensures
            r == self@.changed,
    {
        self.changed
    }

    /// Whether another file can be staged without the id or name counters
    /// running out.
    pub fn has_room(&self) -> (r: bool)
        ensures
            r == (self@.next_dataset_id < u64::MAX && self@.next_relation_index < u64::MAX),
    {
        self.next_dataset_id < u64::MAX && self.next_relation_index < u64::MAX
    }

    /// Whether a file with this identity is open or already staged.
    pub fn contains_identity(&self, identity: &str) -> (r: bool)
        ensures
            r == exists|i: int|
                0 <= i < self@.files.len() && same_path(#[trigger] self@.files[i].identity_path, identity@),
    {
        let n = self.files.len();
        let mut i: usize = 0;
        while i < n
            invariant
                n == self.files@.len(),
                i <= n,
                forall|k: int| 0 <= k < i ==> !same_path(self@.files[k].identity_path, identity@),
            decreases n - i,
        {
            assert(self@.files[i as int] == self.files@[i as int]@);
            if path_eq(self.files[i].identity_path.as_str(), identity) {
                assert(same_path(self@.files[i as int].identity_path, identity@));
                return true;
            }
            i = i + 1;
        }
        false
    }

    /// Stages a newly opened file: it gets the next id, the alias derived from
    /// it, and the next automatic SQL name.
    pub fn stage(
        &mut self,
        source_path: String,
        identity_path: String,
        artifact: CacheArtifact<L>,
        options: ImportOptions,
    )
        requires
            forall|i: int|
                0 <= i < old(self)@.files.len() ==> !same_path(
                    old(self)@.files[i].identity_path,
                    identity_path@,
                ),
            old(self)@.next_dataset_id < u64::MAX,
            old(self)@.next_relation_index < u64::MAX,
        ensures
            final(self)@ == staged(
                old(self)@,
                StagedSource {
                    source_path: source_path@,
                    identity_path: identity_path@,
                    db_path: artifact.path@,
                    columns: artifact.columns@,
                    row_count: artifact.row_count,
                    cached: artifact.cached,
                    options,
                },
            ),
            final(self).leases() == old(self).leases().push(artifact.lease),
            final(self)@.files.len() == old(self)@.files.len() + 1,
            final(self)@.files.last().source_path == source_path@,
            final(self)@.files.last().identity_path == identity_path@,
            final(self)@.files.last().db_path == artifact.path@,
            final(self)@.files.last().columns == artifact.columns@,
            final(self)@.files.last().row_count == artifact.row_count,
            final(self)@.files.last().cached == artifact.cached,
            final(self)@.files.last().import_options == options,
            final(self)@.files.last().id == old(self)@.next_dataset_id,
    {
        proof {
            use_type_invariant(&*self);
        }
        let id = self.next_dataset_id;
        let index = self.next_relation_index;
        let file = OpenFile {
            id,
            source_path,
            identity_path,
            db_path: artifact.path,
            alias: alias_for(id),
            relation_name: automatic_relation_name(index),
            columns: artifact.columns,
            row_count: artifact.row_count,
            cached: artifact.cached,
            import_options: options,
            lease: artifact.lease,
        };
        let base = self.base;
        let mut taken = Proposal {
            files: Vec::new(),
            next_dataset_id: id,
            next_relation_index: index,
            changed: true,
            base,
        };
        std::mem::swap(self, &mut taken);
        proof {
            use_type_invariant(&taken);
        }
        let Proposal { mut files, .. } = taken;
        let ghost before = files@;
        files.push(file);
        assert(views(files@) =~= views(before).push(file@));
        assert(file_leases(files@) =~= file_leases(before).push(file.held_lease()));
        *self = Proposal {
            files,
            next_dataset_id: id + 1,
            next_relation_index: index + 1,
            changed: true,
            base,
        };
    }

    /// The statements that open a catalog over the proposed registry; the
    /// proposal may be applied only once they all succeed.
    pub fn script(&self) -> (r: Vec<String>)
        ensures
            texts(r@) == catalog_statements(self@.files),
    {
        catalog_sql(&self.files)
    }
}

/// The message for an abbreviation that another open file already uses.
pub open spec fn duplicate_name_message(name: Seq<char>) -> Seq<char> {
    "The abbreviation \""@ + name + "\" is already used by another open file."@
}

/// What `info` reports of one open file.
pub open spec fn file_info_matches(info: FileInfo, f: FileView) -> bool {
    &&& info.id == f.id
    &&& info.source_path@ == f.source_path
    &&& info.file_name@ == file_name_of(f.source_path)
    &&& info.table@ == f.relation_name
    &&& info.columns@ == f.columns
    &&& info.row_count == f.row_count
    &&& info.cached == f.cached
    &&& info.import_options == f.import_options
}

impl<L> QueryPlan<L> {
    /// The leases the plan's files hold, in file order.
    pub closed spec fn leases(&self) -> Seq<L> {
        file_leases(self.files@)
    }

    /// The statements that open this plan's catalog.
    pub fn script(&self) -> (r: Vec<String>)
        ensures
            texts(r@) == catalog_statements(self@.files),
    {
        catalog_sql(&self.files)
    }
}

impl<L> Environment<L> {
    #[verifier::type_invariant]
    spec fn inv(self) -> bool {
        registry_wf(views(self.files@), self.next_dataset_id)
    }

    /// The leases the open files hold, in file order.
    pub closed spec fn leases(&self) -> Seq<L> {
        file_leases(self.files@)
    }

    /// An empty registry.
    pub fn new() -> (e: Self)
        ensures
            e@.files.len() == 0,
            e@.revision == 0,
            e@.next_dataset_id == 0,
            e@.next_relation_index == 0,
            registry_wf(e@.files, e@.next_dataset_id),
    {
        let e = Environment {
            files: Vec::new(),
            revision: 0,
            next_dataset_id: 0,
            next_relation_index: 0,
        };
        assert(views(e.files@) =~= Seq::<FileView>::empty());
        e
    }

    /// The current revision.
    pub fn revision(&self) -> (r: u64)
        ensures
            r == self@.revision,
    {
        self.revision
    }

    /// An immutable snapshot of the open files for a query session; refused
    /// when no file is open.
    pub fn query_plan(&self) -> (r: AppResult<QueryPlan<L>>)
        where
            L: Clone,
        ensures
            self@.files.len() == 0 <==> r is Err,
            r matches Err(e) ==> e matches AppError::NoData(m) && m@ == no_data_message(),
            r matches Ok(p) ==> p@.revision == self@.revision && p@.files == self@.files
                && leases_cloned(self.leases(), p.leases()),
    {
        if self.files.len() == 0 {
            return Err(AppError::no_data());
        }
        Ok(QueryPlan { revision: self.revision, files: clone_files(&self.files) })
    }

    /// Starts a batch of additions from the current registry.
    pub fn begin_add(&self) -> (p: Proposal<L>)
        where
            L: Clone,
        ensures
            p@ == opened(self@),
            leases_cloned(self.leases(), p.leases()),
    {
        proof {
            use_type_invariant(self);
        }
        Proposal {
            files: clone_files(&self.files),
            next_dataset_id: self.next_dataset_id,
            next_relation_index: self.next_relation_index,
            changed: false,
            base: Ghost(self@),
        }
    }

    /// The position of the file opened from `identity`.
    pub fn find_by_identity(&self, identity: &str) -> (r: AppResult<usize>)
        ensures
            (exists|i: int|
                0 <= i < self@.files.len() && same_path(
                    #[trigger] self@.files[i].identity_path,
                    identity@,
                )) <==> r is Ok,
            r matches Ok(i) ==> i < self@.files.len() && same_path(
                self@.files[i as int].identity_path,
                identity@,
            ) && forall|k: int|
                0 <= k < i ==> !same_path(#[trigger] self@.files[k].identity_path, identity@),
            r matches Err(e) ==> e matches AppError::NoData(m) && m@ == no_data_message(),
    {
        let n = self.files.len();
        let mut i: usize = 0;
        while i < n
            invariant
                n == self.files@.len(),
                i <= n,
                forall|k: int| 0 <= k < i ==> !same_path(#[trigger] self@.files[k].identity_path, identity@),
            decreases n - i,
        {
            assert(self@.files[i as int] == self.files@[i as int]@);
            if path_eq(self.files[i].identity_path.as_str(), identity) {
                assert(same_path(self@.files[i as int].identity_path, identity@));
                return Ok(i);
            }
            i = i + 1;
        }
        Err(AppError::no_data())
    }

    /// The position of the file to close: the first whose identity or whose
    /// source path names the same path as `identity` or `source` (compared
    /// by components, as `Path` equality does).
    pub fn find_for_removal(&self, identity: &str, source: &str) -> (r: AppResult<usize>)
        ensures
            (exists|i: int|
                0 <= i < self@.files.len() && (same_path(
                    #[trigger] self@.files[i].identity_path,
                    identity@,
                ) || same_path(self@.files[i].source_path, source@))) <==> r is Ok,
            r matches Ok(i) ==> i < self@.files.len() && (same_path(
                self@.files[i as int].identity_path,
                identity@,
            ) || same_path(self@.files[i as int].source_path, source@)) && forall|k: int|
                0 <= k < i ==> !same_path(#[trigger] self@.files[k].identity_path, identity@)
                    && !same_path(self@.files[k].source_path, source@),
            r matches Err(e) ==> e matches AppError::NoData(m) && m@ == no_data_message(),
    {
        let n = self.files.len();
        let mut i: usize = 0;
        while i < n
            invariant
                n == self.files@.len(),
                i <= n,
                forall|k: int|
                    #![trigger self@.files[k]]
                    0 <= k < i ==> !same_path(self@.files[k].identity_path, identity@)
                        && !same_path(self@.files[k].source_path, source@),
            decreases n - i,
        {
            assert(self@.files[i as int] == self.files@[i as int]@);
            if path_eq(self.files[i].identity_path.as_str(), identity) || path_eq(
                self.files[i].source_path.as_str(),
                source,
            ) {
                assert(same_path(self@.files[i as int].identity_path, identity@) || same_path(
                    self@.files[i as int].source_path,
                    source@,
                ));
                return Ok(i);
            }
            i = i + 1;
        }
        Err(AppError::no_data())
    }

    /// Refuses `name` for the file at `index` when another open file already
    /// uses it, ignoring ASCII case.
    pub fn check_name_available(&self, index: usize, name: &str) -> (r: AppResult<()>)
        requires
            index < self@.files.len(),
        ensures
            r is Err <==> exists|j: int|
                0 <= j < self@.files.len() && self@.files[j].id != self@.files[index as int].id
                    && eq_ignore_ascii_case(#[trigger] self@.files[j].relation_name, name@),
            r matches Err(e) ==> e matches AppError::InvalidAbbreviation(m) && m@
                == duplicate_name_message(name@),
    {
        let n = self.files.len();
        let id = self.files[index].id;
        assert(self@.files[index as int] == self.files@[index as int]@);
        let mut j: usize = 0;
        while j < n
            invariant
                n == self.files@.len(),
                j <= n,
                index < n,
                id == self@.files[index as int].id,
                forall|k: int|
                    0 <= k < j ==> !(self@.files[k].id != id && eq_ignore_ascii_case(
                        #[trigger] self@.files[k].relation_name,
                        name@,
                    )),
            decreases n - j,
        {
            assert(self@.files[j as int] == self.files@[j as int]@);
            if self.files[j].id != id && str_eq_ignore_ascii_case(
                self.files[j].relation_name.as_str(),
                name,
            ) {
                let message = String::from_str("The abbreviation \"").concat(name).concat(
                    "\" is already used by another open file.",
                );
                assert(self@.files[j as int].id != self@.files[index as int].id && eq_ignore_ascii_case(self@.files[j as int].relation_name, name@));
                return Err(AppError::InvalidAbbreviation(message));
            }
            j = j + 1;
        }
        Ok(())
    }

    /// Stages re-importing the file at `index` from `artifact` under the SQL
    /// name `relation_name`; every other file is kept as it is.
    pub fn begin_configure(
        &self,
        index: usize,
        relation_name: String,
        artifact: CacheArtifact<L>,
        options: ImportOptions,
    ) -> (p: Proposal<L>)
        where
            L: Clone,
        requires
            index < self@.files.len(),
        ensures
            p@ == reconfiguration(
                self@,
                index as int,
                reconfigured_file(
                    self@.files[index as int],
                    relation_name@,
                    artifact.path@,
                    artifact.columns@,
                    artifact.row_count,
                    artifact.cached,
                    options,
                ),
            ),
            p.leases().len() == self.leases().len(),
            p.leases()[index as int] == artifact.lease,
            p@.files.len() == self@.files.len(),
            p@.files[index as int].db_path == artifact.path@,
            p@.files[index as int].columns == artifact.columns@,
            p@.files[index as int].row_count == artifact.row_count,
            p@.files[index as int].cached == artifact.cached,
            p@.files[index as int].import_options == options,
            p@.files[index as int].relation_name == relation_name@,
            p@.files[index as int].id == self@.files[index as int].id,
            p@.files[index as int].identity_path == self@.files[index as int].identity_path,
            p@.files[index as int].alias == self@.files[index as int].alias,
            forall|k: int|
                0 <= k < self.leases().len() && k != index ==> cloned::<L>(
                    self.leases()[k],
                    #[trigger] p.leases()[k],
                ),
    {
        proof {
            use_type_invariant(self);
        }
        let ghost new_lease = artifact.lease;
        let n = self.files.len();
        let current = &self.files[index];
        let replacement = OpenFile {
            id: current.id,
            source_path: current.source_path.clone(),
            identity_path: current.identity_path.clone(),
            db_path: artifact.path,
            alias: current.alias.clone(),
            relation_name,
            columns: artifact.columns,
            row_count: artifact.row_count,
            cached: artifact.cached,
            import_options: options,
            lease: artifact.lease,
        };
        let ghost target = self@.files.update(index as int, replacement@);
        let mut files: Vec<OpenFile<L>> = Vec::new();
        let mut replacement = Some(replacement);
        let mut i: usize = 0;
        while i < n
            invariant
                n == self.files@.len(),
                index < n,
                i <= n,
                files@.len() == i,
                forall|k: int| 0 <= k < i ==> #[trigger] files@[k]@ == target[k],
                target.len() == n,
                forall|k: int| 0 <= k < n && k != index ==> target[k] == self@.files[k],
                i <= index ==> (replacement matches Some(r) && r@ == target[index as int]
                    && r.held_lease() == new_lease),
                i > index ==> files@[index as int].held_lease() == new_lease,
                forall|k: int|
                    0 <= k < i && k != index ==> cloned::<L>(
                        self.files@[k].held_lease(),
                        #[trigger] files@[k].held_lease(),
                    ),
            decreases n - i,
        {
            if i == index {
                match replacement.take() {
                    Some(r) => files.push(r),
                    None => {},
                }
            } else {
                assert(target[i as int] == self@.files[i as int]);
                assert(self@.files[i as int] == self.files@[i as int]@);
                files.push(self.files[i].clone());
            }
            i = i + 1;
        }
        assert(views(files@) =~= target);
        assert(file_leases(files@)[index as int] == new_lease);
        Proposal {
            files,
            next_dataset_id: self.next_dataset_id,
            next_relation_index: self.next_relation_index,
            changed: true,
            base: Ghost(self@),
        }
    }

    /// Stages closing the file at `index`; the others keep their order.
    pub fn begin_remove(&self, index: usize) -> (p: Proposal<L>)
        where
            L: Clone,
        requires
            index < self@.files.len(),
        ensures
            p@ == removal(self@, index as int),
            p.leases().len() == self.leases().len() - 1,
            forall|k: int| 0 <= k < index ==> cloned::<L>(self.leases()[k], #[trigger] p.leases()[k]),
            forall|k: int|
                index < k < self.leases().len() ==> cloned::<L>(
                    self.leases()[k],
                    #[trigger] p.leases()[k - 1],
                ),
    {
        proof {
            use_type_invariant(self);
        }
        let n = self.files.len();
        let ghost target = self@.files.remove(index as int);
        let mut files: Vec<OpenFile<L>> = Vec::new();
        let mut i: usize = 0;
        while i < n
            invariant
                n == self.files@.len(),
                index < n,
                i <= n,
                target.len() == n - 1,
                target == self@.files.remove(index as int),
                files@.len() == if i <= index { i as int } else { i - 1 },
                forall|k: int| 0 <= k < files@.len() ==> #[trigger] files@[k]@ == target[k],
                forall|k: int|
                    0 <= k < files@.len() ==> cloned::<L>(
                        self.files@[if k < index { k } else { k + 1 }].held_lease(),
                        #[trigger] files@[k].held_lease(),
                    ),
            decreases n - i,
        {
            if i != index {
                assert(self@.files[i as int] == self.files@[i as int]@);
                if i < index {
                    assert(target[i as int] == self@.files[i as int]);
                } else {
                    assert(target[i - 1] == self@.files[i as int]);
                }
                files.push(self.files[i].clone());
            }
            i = i + 1;
        }
        assert(views(files@) =~= target);
        Proposal {
            files,
            next_dataset_id: self.next_dataset_id,
            next_relation_index: self.next_relation_index,
            changed: true,
            base: Ghost(self@),
        }
    }

    /// Publishes a proposal prepared from the current registry. An unchanged
    /// proposal publishes nothing; otherwise the proposed files replace the
    /// registry and the revision advances.
    pub fn commit(&mut self, p: Proposal<L>)
        requires
            p@.base == old(self)@,
        ensures
            final(self)@ == applied(old(self)@, p@),
            registry_wf(final(self)@.files, final(self)@.next_dataset_id),
            p@.changed ==> final(self).leases() == p.leases(),
            !p@.changed ==> final(self).leases() == old(self).leases(),
    {
        proof {
            use_type_invariant(&p);
        }
        if !p.changed {
            proof {
                use_type_invariant(&*self);
            }
            return;
        }
        let revision = self.revision.saturating_add(1);
        let Proposal { files, next_dataset_id, next_relation_index, .. } = p;
        *self = Environment { files, revision, next_dataset_id, next_relation_index };
    }

    /// A snapshot of the open files for display.
    pub fn info(&self) -> (r: EnvironmentInfo)
        ensures
            r.revision == self@.revision,
            r.files@.len() == self@.files.len(),
            forall|i: int|
                0 <= i < self@.files.len() ==> file_info_matches(
                    #[trigger] r.files@[i],
                    self@.files[i],
                ),
    {
        let n = self.files.len();
        let mut files: Vec<FileInfo> = Vec::new();
        let mut i: usize = 0;
        while i < n
            invariant
                n == self.files@.len(),
                i <= n,
                files@.len() == i,
                forall|k: int|
                    0 <= k < i ==> file_info_matches(#[trigger] files@[k], self@.files[k]),
            decreases n - i,
        {
            let f = &self.files[i];
            assert(self@.files[i as int] == f@);
            let columns = f.columns.clone();
            assert(columns@ =~= f.columns@);
            files.push(
                FileInfo {
                    id: f.id,
                    source_path: f.source_path.clone(),
                    file_name: file_name(f.source_path.as_str()),
                    table: f.relation_name.clone(),
                    columns,
                    row_count: f.row_count,
                    cached: f.cached,
                    import_options: f.import_options.clone(),
                },
            );
            i = i + 1;
        }
        EnvironmentInfo { files, revision: self.revision }
    }
}

/// A character that may start an abbreviation: an ASCII letter or `_`.
pub open spec fn is_name_start(c: char) -> bool {
    ('a' <= c <= 'z') || ('A' <= c <= 'Z') || c == '_'
}

/// A character that may continue an abbreviation: an ASCII letter, digit or `_`.
pub open spec fn is_name_char(c: char) -> bool {
    is_name_start(c) || ('0' <= c <= '9')
}

/// The shape check for a user-chosen abbreviation: the trimmed text, or the
/// message of the refusal.
pub open spec fn abbreviation_decision(value: Seq<char>) -> Result<Seq<char>, Seq<char>> {
    let a = trim(value);
    if a.len() == 0 {
        Err("Choose an abbreviation for this file."@)
    } else if encode_utf8(a).len() > 64 {
        Err("Abbreviations must be 64 characters or fewer."@)
    } else if !(is_name_start(a[0]) && forall|k: int| 1 <= k < a.len() ==> is_name_char(#[trigger] a[k])) {
        Err("Use letters, numbers, or underscores, starting with a letter or underscore."@)
    } else {
        Ok(a)
    }
}

/// Every character takes between one and four bytes in UTF-8.
pub proof fn lemma_utf8_len_bounds(chars: Seq<char>)
    ensures
        chars.len() <= encode_utf8(chars).len() <= 4 * chars.len(),
    decreases chars.len(),
{
    if chars.len() > 0 {
        lemma_utf8_len_bounds(chars.drop_first());
        let e = vstd::utf8::encode_scalar(chars[0] as u32);
        assert(1 <= e.len() <= 4);
    }
}

/// The message for an abbreviation that is a reserved SQL word.
pub open spec fn reserved_word_message(a: Seq<char>) -> Seq<char> {
    "\""@ + a + "\" is a reserved SQL word. Choose another abbreviation."@
}

/// Checks the shape of a proposed abbreviation (non-empty after trimming, at
/// most 64 bytes, letters, digits and underscores, not starting with a
/// digit) and returns it trimmed.
pub fn check_abbreviation_syntax(value: &str) -> (r: AppResult<String>)
    ensures
        r matches Ok(a) ==> a@ == trim(value@) && a@.len() > 0 && !('0' <= a@[0] <= '9')
            && forall|k: int|
            0 <= k < a@.len() ==> ('a' <= #[trigger] a@[k] <= 'z') || ('A' <= a@[k] <= 'Z') || (
            '0' <= a@[k] <= '9') || a@[k] == '_',
        match (r, abbreviation_decision(value@)) {
            (Ok(a), Ok(t)) => a@ == t,
            (Err(AppError::InvalidAbbreviation(m)), Err(e)) => m@ == e,
            _ => false,
        },
{
    let a = trim_str(value);
    let n = a.unicode_len();
    if n == 0 {
        return Err(AppError::InvalidAbbreviation(String::from_str("Choose an abbreviation for this file.")));
    }
    proof {
        lemma_utf8_len_bounds(a@);
    }
    if n > 64 || a.len() > 64 {
        return Err(
            AppError::InvalidAbbreviation(String::from_str("Abbreviations must be 64 characters or fewer.")),
        );
    }
    let first = a.get_char(0);
    let mut valid = ('a' <= first && first <= 'z') || ('A' <= first && first <= 'Z') || first == '_';
    let mut i: usize = 1;
    while valid && i < n
        invariant
            n == a@.len(),
            1 <= i <= n,
            valid ==> forall|k: int| 1 <= k < i ==> is_name_char(#[trigger] a@[k]),
            !valid ==> !(is_name_start(a@[0]) && forall|k: int| 1 <= k < n ==> is_name_char(#[trigger] a@[k])),
            valid ==> is_name_start(a@[0]),
        decreases n - i,
    {
        let c = a.get_char(i);
        if !(('a' <= c && c <= 'z') || ('A' <= c && c <= 'Z') || c == '_' || ('0' <= c && c <= '9')) {
            assert(!is_name_char(a@[i as int]));
            valid = false;
        }
        i = i + 1;
    }
    if !valid {
        return Err(
            AppError::InvalidAbbreviation(
                String::from_str("Use letters, numbers, or underscores, starting with a letter or underscore."),
            ),
        );
    }
    Ok(String::from_str(a))
}

/// Refuses an abbreviation that the database reserves as a keyword.
pub fn reject_reserved(abbreviation: String, reserved: bool) -> (r: AppResult<String>)
    ensures
        !reserved ==> r == Ok::<String, AppError>(abbreviation),
        reserved ==> (r matches Err(AppError::InvalidAbbreviation(m)) && m@ == reserved_word_message(abbreviation@)),
{
    if reserved {
        let message = String::from_str("\"").concat(abbreviation.as_str()).concat(
            "\" is a reserved SQL word. Choose another abbreviation.",
        );
        return Err(AppError::InvalidAbbreviation(message));
    }
    Ok(abbreviation)
}

/// The keyword lookup `lookup`, asked about a word with the text `word`,
/// may answer `answer`.
pub open spec fn lookup_answers<F: Fn(&str) -> Result<bool, String>>(
    lookup: F,
    word: Seq<char>,
    answer: Result<bool, String>,
) -> bool {
    exists|w: &str| w@ == word && #[trigger] call_ensures(lookup, (w,), answer)
}

/// The trimmed abbreviation, if its shape is valid and the database's
/// keyword list, asked through `is_reserved` about exactly that word, does
/// not reserve it. A failed lookup is reported as a database error.
pub fn validate_abbreviation<F: Fn(&str) -> Result<bool, String>>(value: &str, is_reserved: F) -> (r: AppResult<String>)
    requires
        forall|w: &str| #[trigger] call_requires(is_reserved, (w,)),
    ensures
        match (r, abbreviation_decision(value@)) {
            (Err(AppError::InvalidAbbreviation(m)), Err(e)) => m@ == e,
            (Ok(a), Ok(t)) => a@ == t && lookup_answers(is_reserved, t, Ok(false)),
            (Err(AppError::InvalidAbbreviation(m)), Ok(t)) => m@ == reserved_word_message(t)
                && lookup_answers(is_reserved, t, Ok(true)),
            (Err(AppError::Database(m)), Ok(t)) => lookup_answers(is_reserved, t, Err(m)),
            _ => false,
        },
{
    let abbreviation = check_abbreviation_syntax(value)?;
    let answer = {
        let word: &str = abbreviation.as_str();
        let answer = is_reserved(word);
        assert(lookup_answers(is_reserved, abbreviation@, answer)) by {
            assert(call_ensures(is_reserved, (word,), answer));
        }
        answer
    };
    match answer {
        Ok(reserved) => reject_reserved(abbreviation, reserved),
        Err(m) => Err(AppError::Database(m)),
    }
}

/// A batch of additions with `items` staged in order.
pub open spec fn stage_all(p: ProposalView, items: Seq<StagedSource>) -> ProposalView
    decreases items.len(),
{
    if items.len() == 0 {
        p
    } else {
        staged(stage_all(p, items.drop_last()), items.last())
    }
}

/// The records that a batch of additions appends to `e`.
pub open spec fn appended_files(e: EnvView, items: Seq<StagedSource>) -> Seq<FileView> {
    Seq::new(
        items.len(),
        |j: int|
            staged_file(
                (e.next_dataset_id + j) as u64,
                (e.next_relation_index + j) as u64,
                items[j],
            ),
    )
}

proof fn lemma_stage_all(e: EnvView, items: Seq<StagedSource>)
    requires
        e.next_dataset_id + items.len() <= u64::MAX,
        e.next_relation_index + items.len() <= u64::MAX,
    ensures
        stage_all(opened(e), items) == (ProposalView {
            files: e.files + appended_files(e, items),
            next_dataset_id: (e.next_dataset_id + items.len()) as u64,
            next_relation_index: (e.next_relation_index + items.len()) as u64,
            changed: items.len() > 0,
            base: e,
        }),
    decreases items.len(),
{
    if items.len() == 0 {
        assert(e.files + appended_files(e, items) =~= e.files);
    } else {
        let rest = items.drop_last();
        lemma_stage_all(e, rest);
        assert(e.files + appended_files(e, items) =~= (e.files + appended_files(e, rest)).push(
            staged_file(
                (e.next_dataset_id + rest.len()) as u64,
                (e.next_relation_index + rest.len()) as u64,
                items.last(),
            ),
        ));
    }
}

/// Publishing a batch of additions keeps every file already open exactly as
/// it was, in place, and appends the batch in order; the k-th added file gets
/// the next id plus k and the automatic name for the next name index plus k.
/// The revision advances once for a non-empty batch; an empty batch publishes
/// nothing.
pub proof fn law_batch_addition(e: EnvView, items: Seq<StagedSource>)
    requires
        e.next_dataset_id + items.len() <= u64::MAX,
        e.next_relation_index + items.len() <= u64::MAX,
    ensures
        items.len() == 0 ==> applied(e, stage_all(opened(e), items)) == e,
        items.len() > 0 ==> applied(e, stage_all(opened(e), items)) == (EnvView {
            files: e.files + appended_files(e, items),
            revision: next_revision(e.revision),
            next_dataset_id: (e.next_dataset_id + items.len()) as u64,
            next_relation_index: (e.next_relation_index + items.len()) as u64,
        }),
{
    lemma_stage_all(e, items);
}

/// Publishing a batch records, for the k-th added file, exactly what it was
/// staged from: its source and identity paths, the database path, columns,
/// row count and cached flag of its artifact, and its import options; it
/// gets the next id plus k and the automatic name for the next name index
/// plus k.
pub proof fn law_batch_records_sources(e: EnvView, items: Seq<StagedSource>, k: int)
    requires
        e.next_dataset_id + items.len() <= u64::MAX,
        e.next_relation_index + items.len() <= u64::MAX,
        0 <= k < items.len(),
    ensures
        ({
            let f = applied(e, stage_all(opened(e), items)).files[e.files.len() + k];
            &&& applied(e, stage_all(opened(e), items)).files.len() == e.files.len() + items.len()
            &&& f.source_path == items[k].source_path
            &&& f.identity_path == items[k].identity_path
            &&& f.db_path == items[k].db_path
            &&& f.columns == items[k].columns
            &&& f.row_count == items[k].row_count
            &&& f.cached == items[k].cached
            &&& f.import_options == items[k].options
            &&& f.id == e.next_dataset_id + k
            &&& f.relation_name == automatic_name((e.next_relation_index + k) as nat)
        }),
{
    lemma_stage_all(e, items);
    let files = e.files + appended_files(e, items);
    assert(files[e.files.len() + k] == appended_files(e, items)[k]);
}

/// An accepted abbreviation is the trimmed text: non-empty, at most 64 bytes
/// in UTF-8, made only of ASCII letters, digits and underscores, and not
/// starting with a digit; every other text is refused.
pub proof fn law_abbreviation_shape(value: Seq<char>)
    ensures
        ({
            let a = trim(value);
            &&& abbreviation_decision(value) is Ok <==> (a.len() > 0 && encode_utf8(a).len() <= 64
                && (('a' <= a[0] <= 'z') || ('A' <= a[0] <= 'Z') || a[0] == '_') && forall|k: int|
                0 <= k < a.len() ==> ('a' <= #[trigger] a[k] <= 'z') || ('A' <= a[k] <= 'Z') || (
                '0' <= a[k] <= '9') || a[k] == '_')
            &&& abbreviation_decision(value) is Ok ==> abbreviation_decision(value)->Ok_0 == a
        }),
{
    let a = trim(value);
    if a.len() > 0 && encode_utf8(a).len() <= 64 && is_name_start(a[0]) {
        assert((forall|k: int| 1 <= k < a.len() ==> is_name_char(#[trigger] a[k])) <==> (forall|k: int|
            0 <= k < a.len() ==> ('a' <= #[trigger] a[k] <= 'z') || ('A' <= a[k] <= 'Z') || ('0' <= a[k] <= '9')
                || a[k] == '_'));
    }
}

/// Automatic SQL names never repeat: different name indices give different
/// names.
pub proof fn law_automatic_names_distinct(i: nat, j: nat)
    requires
        i != j,
    ensures
        automatic_name(i) != automatic_name(j),
{
    reveal_strlit("data");
    if automatic_name(i) == automatic_name(j) {
        crate::text::lemma_decimal_len(i);
        crate::text::lemma_decimal_len(j);
        if i != 0 && j != 0 {
            assert(decimal(i) =~= automatic_name(i).subrange(4, automatic_name(i).len() as int));
            assert(decimal(j) =~= automatic_name(j).subrange(4, automatic_name(j).len() as int));
            crate::text::lemma_decimal_injective(i, j);
        } else {
            assert(automatic_name(i).len() != automatic_name(j).len());
        }
    }
}

/// Closing a file keeps every other open file, with its id and SQL name, in
/// the same relative order, and advances the revision.
pub proof fn law_removal_keeps_others(e: EnvView, index: int)
    requires
        0 <= index < e.files.len(),
    ensures
        applied(e, removal(e, index)).files.len() == e.files.len() - 1,
        forall|k: int| 0 <= k < index ==> applied(e, removal(e, index)).files[k] == e.files[k],
        forall|k: int|
            index < k < e.files.len() ==> applied(e, removal(e, index)).files[k - 1] == e.files[k],
        applied(e, removal(e, index)).revision == next_revision(e.revision),
{
}

/// Re-importing a file keeps every other open file as it was, and keeps the
/// re-imported file's id, identity and position.
pub proof fn law_reconfiguration_keeps_others(
    e: EnvView,
    index: int,
    relation_name: Seq<char>,
    db_path: Seq<char>,
    columns: Seq<ColumnInfo>,
    row_count: u64,
    cached: bool,
    options: ImportOptions,
)
    requires
        0 <= index < e.files.len(),
    ensures
        ({
            let after = applied(
                e,
                reconfiguration(
                    e,
                    index,
                    reconfigured_file(
                        e.files[index],
                        relation_name,
                        db_path,
                        columns,
                        row_count,
                        cached,
                        options,
                    ),
                ),
            );
            &&& after.files.len() == e.files.len()
            &&& forall|k: int| 0 <= k < e.files.len() && k != index ==> after.files[k] == e.files[k]
            &&& after.files[index].id == e.files[index].id
            &&& after.files[index].identity_path == e.files[index].identity_path
            &&& after.files[index].relation_name == relation_name
            &&& after.files[index].alias == e.files[index].alias
            &&& after.files[index].db_path == db_path
            &&& after.files[index].columns == columns
            &&& after.files[index].row_count == row_count
            &&& after.files[index].cached == cached
            &&& after.files[index].import_options == options
            &&& after.revision == next_revision(e.revision)
        }),
{
}

/// The revision never goes back: publishing a change advances it (it
/// saturates at the largest value), and publishing nothing keeps it.
pub proof fn law_revision_never_decreases(e: EnvView, p: ProposalView)
    ensures
        applied(e, p).revision >= e.revision,
        p.changed && e.revision < u64::MAX ==> applied(e, p).revision == e.revision + 1,
        !p.changed ==> applied(e, p) == e,
{
}

} // verus!

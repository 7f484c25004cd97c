//! The file service: list, upload, download, rename and delete against the
//! single configured root. The directory contents are modelled as a sequence
//! of name/content records with distinct names; the unverified edge mirrors
//! each accepted operation onto the real filesystem. Every client-supplied
//! name is checked for safety before it reaches any effect.

use crate::paths::is_safe_path;
use crate::paths::safe_path;
use vstd::prelude::*;

verus! {

/// One row of a directory listing: file name and byte size.
pub struct FileEntry {
    pub name: String,
    pub size: u64,
}

/// An upload request: the client-supplied file name and the payload bytes.
pub struct FileUpload {
    pub name: String,
    pub data: Vec<u8>,
}

/// A rename request: the name the file is to carry afterwards.
pub struct RenameRequest {
    pub new_name: String,
}

/// Outcome of an upload. `Rejected` is the refusal of an unsafe name;
/// `InternalError` is the edge's word for a failure to persist.
#[derive(Clone, Copy, PartialEq, Eq, Structural, Debug)]
pub enum UploadResult {
    Stored,
    Rejected,
    InternalError,
}

/// Refusals of the path-taking operations: an unsafe path, or a name that
/// no stored file carries.
#[derive(Clone, Copy, PartialEq, Eq, Structural, Debug)]
pub enum FsError {
    Rejected,
    NotFound,
}

/// No two records carry the same name.
pub open spec fn unique_names(e: Seq<(Seq<char>, Seq<u8>)>) -> bool {
    forall|i: int, j: int| 0 <= i < j < e.len() ==> (#[trigger] e[i]).0 != (#[trigger] e[j]).0
}

/// Some record carries the name `n`.
pub open spec fn has_name(e: Seq<(Seq<char>, Seq<u8>)>, n: Seq<char>) -> bool {
    exists|i: int| 0 <= i < e.len() && (#[trigger] e[i]).0 == n
}

/// Index of the record named `n` (unique when the names are distinct).
pub open spec fn idx_of(e: Seq<(Seq<char>, Seq<u8>)>, n: Seq<char>) -> int {
    choose|i: int| 0 <= i < e.len() && (#[trigger] e[i]).0 == n
}

/// The content stored under `n`, if any.
pub open spec fn lookup(e: Seq<(Seq<char>, Seq<u8>)>, n: Seq<char>) -> Option<Seq<u8>> {
    if has_name(e, n) {
        Some(e[idx_of(e, n)].1)
    } else {
        None
    }
}

/// The records without the one named `n`; unchanged when none is.
pub open spec fn remove_name(e: Seq<(Seq<char>, Seq<u8>)>, n: Seq<char>) -> Seq<
    (Seq<char>, Seq<u8>),
> {
    if has_name(e, n) {
        e.remove(idx_of(e, n))
    } else {
        e
    }
}

/// Effect of an accepted upload: any previous content under the name is
/// replaced (this implementation's configured choice: uploads overwrite),
/// and the record stands at the end of the listing order.
pub open spec fn upload_effect(e: Seq<(Seq<char>, Seq<u8>)>, n: Seq<char>, d: Seq<u8>) -> Seq<
    (Seq<char>, Seq<u8>),
> {
    remove_name(e, n).push((n, d))
}

/// Effect of an accepted delete.
pub open spec fn delete_effect(e: Seq<(Seq<char>, Seq<u8>)>, n: Seq<char>) -> Seq<
    (Seq<char>, Seq<u8>),
> {
    remove_name(e, n)
}

/// Effect of an accepted rename: the content moves from `o` to `n`,
/// replacing whatever `n` named before. Renaming a file to its own name
/// changes nothing.
pub open spec fn rename_effect(e: Seq<(Seq<char>, Seq<u8>)>, o: Seq<char>, n: Seq<char>) -> Seq<
    (Seq<char>, Seq<u8>),
> {
    if !has_name(e, o) {
        e
    } else if o == n {
        e
    } else {
        remove_name(remove_name(e, o), n).push((n, lookup(e, o).unwrap()))
    }
}

/// The projection a listing shows of the records: name and byte size.
pub open spec fn listing_of(e: Seq<(Seq<char>, Seq<u8>)>) -> Seq<(Seq<char>, nat)> {
    Seq::new(e.len(), |i: int| (e[i].0, e[i].1.len()))
}

struct FileRecord {
    name: String,
    data: Vec<u8>,
}

/// The file store, as the operations see it: one record per stored file,
/// names distinct. What the filesystem edge persists mirrors this state.
pub struct FileService {
    records: Vec<FileRecord>,
}

impl FileService {
    /// The stored records: name and content of each file, in listing order.
    pub closed spec fn entries(&self) -> Seq<(Seq<char>, Seq<u8>)> {
        Seq::new(self.records@.len(), |i: int| (self.records@[i].name@, self.records@[i].data@))
    }

    /// Well-formedness: no two stored files share a name.
    pub open spec fn wf(&self) -> bool {
        unique_names(self.entries())
    }

    /// An empty store.
    pub fn new() -> (r: FileService)
        ensures
            r.wf(),
            r.entries() == Seq::<(Seq<char>, Seq<u8>)>::empty(),
    {
        let r = FileService { records: Vec::new() };
        proof {
            assert(r.entries() =~= Seq::<(Seq<char>, Seq<u8>)>::empty());
        }
        r
    }
}

/// With distinct names, any record named `n` stands at `idx_of`.
proof fn lemma_idx_is(e: Seq<(Seq<char>, Seq<u8>)>, n: Seq<char>, i: int)
    requires
        unique_names(e),
        0 <= i < e.len(),
        e[i].0 == n,
    ensures
        has_name(e, n),
        idx_of(e, n) == i,
{
    assert(has_name(e, n));
    let k = idx_of(e, n);
    if k != i {
        if k < i {
            assert(e[k].0 != e[i].0);
        } else {
            assert(e[i].0 != e[k].0);
        }
    }
}

/// What removing the record named `n` leaves: distinct names, `n` gone,
/// every other name bound as before.
proof fn lemma_remove_name(e: Seq<(Seq<char>, Seq<u8>)>, n: Seq<char>)
    requires
        unique_names(e),
    ensures
        unique_names(remove_name(e, n)),
        !has_name(remove_name(e, n), n),
        remove_name(e, n).len() == if has_name(e, n) {
            e.len() - 1
        } else {
            e.len() as int
        },
        forall|m: Seq<char>|
            m != n ==> #[trigger] has_name(remove_name(e, n), m) == has_name(e, m),
        forall|m: Seq<char>| m != n ==> #[trigger] lookup(remove_name(e, n), m) == lookup(e, m),
{
    if has_name(e, n) {
        let k = idx_of(e, n);
        let e2 = e.remove(k);
        e.remove_ensures(k);
        assert forall|j: int| 0 <= j < e2.len() implies (#[trigger] e2[j]) == e[orig_idx(k, j)] by {}
        assert(unique_names(e2)) by {
            assert forall|i: int, j: int| 0 <= i < j < e2.len() implies (#[trigger] e2[i]).0 != (
            #[trigger] e2[j]).0 by {
                assert(e2[i] == e[orig_idx(k, i)]);
                assert(e2[j] == e[orig_idx(k, j)]);
            }
        }
        assert(!has_name(e2, n)) by {
            if has_name(e2, n) {
                let j = choose|j: int| 0 <= j < e2.len() && (#[trigger] e2[j]).0 == n;
                assert(e2[j] == e[orig_idx(k, j)]);
                assert(e[orig_idx(k, j)].0 == n && orig_idx(k, j) != k);
                assert(e[k].0 == n);
            }
        }
        assert forall|m: Seq<char>| m != n implies #[trigger] has_name(e2, m) == has_name(
            e,
            m,
        ) by {
            if has_name(e, m) {
                let i = choose|i: int| 0 <= i < e.len() && (#[trigger] e[i]).0 == m;
                assert(i != k);
                if i < k {
                    assert(e2[i] == e[i]);
                } else {
                    assert(e2[i - 1] == e[i]);
                }
            }
            if has_name(e2, m) {
                let j = choose|j: int| 0 <= j < e2.len() && (#[trigger] e2[j]).0 == m;
                assert(e2[j] == e[orig_idx(k, j)]);
            }
        }
        assert forall|m: Seq<char>| m != n implies #[trigger] lookup(e2, m) == lookup(e, m) by {
            if has_name(e, m) {
                let i = idx_of(e, m);
                assert(e[i].0 == m);
                assert(i != k);
                if i < k {
                    assert(e2[i] == e[i]);
                    lemma_idx_is(e2, m, i);
                } else {
                    assert(e2[i - 1] == e[i]);
                    lemma_idx_is(e2, m, i - 1);
                }
            }
        }
    }
}

/// The index in the original sequence that position `j` of `remove(k)`
/// came from.
spec fn orig_idx(k: int, j: int) -> int {
    if j < k {
        j
    } else {
        j + 1
    }
}

/// Index of the record carrying `name`, scanning in listing order.
fn find_index(records: &Vec<FileRecord>, name: &String) -> (r: Option<usize>)
    ensures
        r matches Some(i) ==> 0 <= i < records@.len() && records@[i as int].name@ == name@,
        r is None ==> forall|j: int| 0 <= j < records@.len() ==> records@[j].name@ != name@,
{
    let n = records.len();
    let mut i: usize = 0;
    while i < n
        invariant
            n == records@.len(),
            0 <= i <= n,
            forall|j: int| 0 <= j < i ==> records@[j].name@ != name@,
        decreases n - i,
    {
        if records[i].name == *name {
            return Some(i);
        }
        i += 1;
    }
    None
}

/// Lists the stored files: one entry per record, in order, carrying the
/// name and the byte size.
pub fn files(service: &FileService) -> (r: Vec<FileEntry>)
    ensures
        r@.len() == service.entries().len(),
        forall|i: int|
            0 <= i < r@.len() ==> (#[trigger] r@[i]).name@ == service.entries()[i].0 && r@[i].size
                == service.entries()[i].1.len(),
{
    let n = service.records.len();
    let mut out: Vec<FileEntry> = Vec::new();
    let mut i: usize = 0;
    while i < n
        invariant
            n == service.records@.len(),
            0 <= i <= n,
            out@.len() == i,
            forall|j: int|
                0 <= j < i ==> (#[trigger] out@[j]).name@ == service.entries()[j].0 && out@[j].size
                    == service.entries()[j].1.len(),
        decreases n - i,
    {
        let name = service.records[i].name.clone();
        let size = service.records[i].data.len() as u64;
        out.push(FileEntry { name, size });
        i += 1;
    }
    out
}

/// Stores the payload under the client-supplied name. An unsafe name is
/// rejected before any effect; an accepted upload replaces whatever the
/// name held before.
pub fn upload(service: &mut FileService, request: FileUpload) -> (r: UploadResult)
    requires
        old(service).wf(),
    ensures
        final(service).wf(),
        !safe_path(request.name@) ==> r == UploadResult::Rejected && final(service).entries() == old(
            service,
        ).entries(),
        safe_path(request.name@) ==> r == UploadResult::Stored && final(service).entries()
            == upload_effect(old(service).entries(), request.name@, request.data@),
{
    let FileUpload { name, data } = request;
    if !is_safe_path(name.as_str()) {
        return UploadResult::Rejected;
    }
    proof {
        lemma_remove_name(old(service).entries(), name@);
    }
    match find_index(&service.records, &name) {
        Some(i) => {
            proof {
                lemma_idx_is(old(service).entries(), name@, i as int);
            }
            let ghost before = service.records@;
            service.records.remove(i);
            proof {
                assert(service.entries() =~= old(service).entries().remove(i as int)) by {
                    before.remove_ensures(i as int);
                }
            }
        },
        None => {
            proof {
                assert(!has_name(old(service).entries(), name@));
            }
        },
    }
    let ghost mid = service.entries();
    proof {
        assert(mid == remove_name(old(service).entries(), name@));
    }
    service.records.push(FileRecord { name, data });
    proof {
        assert(service.entries() =~= mid.push((request.name@, request.data@)));
        assert(unique_names(service.entries())) by {
            assert(!has_name(mid, request.name@));
            assert forall|i: int, j: int|
                0 <= i < j < service.entries().len() implies (#[trigger] service.entries()[i]).0
                != (#[trigger] service.entries()[j]).0 by {
                if j < mid.len() {
                    assert(service.entries()[i] == mid[i] && service.entries()[j] == mid[j]);
                } else {
                    assert(service.entries()[i] == mid[i]);
                    if mid[i].0 == request.name@ {
                        assert(has_name(mid, request.name@));
                    }
                }
            }
        }
    }
    UploadResult::Stored
}

/// Hands back the content stored under the path, or nothing when the path
/// is unsafe or no file carries the name.
pub fn download(service: &FileService, file: &str) -> (r: Option<Vec<u8>>)
    requires
        service.wf(),
    ensures
        r is Some <==> safe_path(file@) && has_name(service.entries(), file@),
        r matches Some(d) ==> lookup(service.entries(), file@) == Some(d@),
{
    if !is_safe_path(file) {
        return None;
    }
    let key = file.to_owned();
    match find_index(&service.records, &key) {
        Some(i) => {
            proof {
                lemma_idx_is(service.entries(), file@, i as int);
            }
            let content = service.records[i].data.clone();
            proof {
                assert(content@ =~= service.entries()[i as int].1);
            }
            Some(content)
        },
        None => {
            proof {
                assert(!has_name(service.entries(), file@));
            }
            None
        },
    }
}

/// Removes the file at the path. An unsafe path is rejected; a name no
/// file carries is reported as absent; otherwise the record is gone
/// afterwards.
pub fn delete_file(service: &mut FileService, file: &str) -> (r: Result<(), FsError>)
    requires
        old(service).wf(),
    ensures
        final(service).wf(),
        !safe_path(file@) ==> r == Err::<(), FsError>(FsError::Rejected) && final(service).entries()
            == old(service).entries(),
        safe_path(file@) && !has_name(old(service).entries(), file@) ==> r == Err::<(), FsError>(
            FsError::NotFound,
        ) && final(service).entries() == old(service).entries(),
        safe_path(file@) && has_name(old(service).entries(), file@) ==> r == Ok::<(), FsError>(())
            && final(service).entries() == delete_effect(old(service).entries(), file@),
{
    if !is_safe_path(file) {
        return Err(FsError::Rejected);
    }
    let key = file.to_owned();
    proof {
        lemma_remove_name(old(service).entries(), file@);
    }
    match find_index(&service.records, &key) {
        Some(i) => {
            proof {
                lemma_idx_is(old(service).entries(), file@, i as int);
            }
            let ghost before = service.records@;
            service.records.remove(i);
            proof {
                assert(service.entries() =~= old(service).entries().remove(i as int)) by {
                    before.remove_ensures(i as int);
                }
            }
            Ok(())
        },
        None => {
            proof {
                assert(!has_name(old(service).entries(), file@));
            }
            Err(FsError::NotFound)
        },
    }
}

/// Renames the file at the path to the requested name, replacing whatever
/// that name held. Both names must be safe; the source must exist.
pub fn rename(service: &mut FileService, file: &str, request: &RenameRequest) -> (r: Result<
    (),
    FsError,
>)
    requires
        old(service).wf(),
    ensures
        final(service).wf(),
        !(safe_path(file@) && safe_path(request.new_name@)) ==> r == Err::<(), FsError>(
            FsError::Rejected,
        ) && final(service).entries() == old(service).entries(),
        safe_path(file@) && safe_path(request.new_name@) && !has_name(
            old(service).entries(),
            file@,
        ) ==> r == Err::<(), FsError>(FsError::NotFound) && final(service).entries() == old(
            service,
        ).entries(),
        safe_path(file@) && safe_path(request.new_name@) && has_name(
            old(service).entries(),
            file@,
        ) ==> r == Ok::<(), FsError>(()) && final(service).entries() == rename_effect(
            old(service).entries(),
            file@,
            request.new_name@,
        ),
{
    if !is_safe_path(file) || !is_safe_path(request.new_name.as_str()) {
        return Err(FsError::Rejected);
    }
    let key = file.to_owned();
    let i = match find_index(&service.records, &key) {
        Some(i) => i,
        None => {
            proof {
                assert(!has_name(old(service).entries(), file@));
            }
            return Err(FsError::NotFound);
        },
    };
    proof {
        lemma_idx_is(old(service).entries(), file@, i as int);
    }
    if key == request.new_name {
        return Ok(());
    }
    proof {
        lemma_remove_name(old(service).entries(), file@);
    }
    let ghost before = service.records@;
    let moved = service.records.remove(i);
    proof {
        assert(service.entries() =~= old(service).entries().remove(i as int)) by {
            before.remove_ensures(i as int);
        }
    }
    let ghost mid = service.entries();
    proof {
        assert(mid == remove_name(old(service).entries(), file@));
        lemma_remove_name(mid, request.new_name@);
    }
    match find_index(&service.records, &request.new_name) {
        Some(j) => {
            proof {
                lemma_idx_is(mid, request.new_name@, j as int);
            }
            let ghost before2 = service.records@;
            service.records.remove(j);
            proof {
                assert(service.entries() =~= mid.remove(j as int)) by {
                    before2.remove_ensures(j as int);
                }
            }
        },
        None => {
            proof {
                assert(!has_name(mid, request.new_name@));
            }
        },
    }
    let ghost mid2 = service.entries();
    proof {
        assert(mid2 == remove_name(mid, request.new_name@));
    }
    service.records.push(FileRecord { name: request.new_name.clone(), data: moved.data });
    proof {
        assert(service.entries() =~= mid2.push((request.new_name@, old(service).entries()[
        i as int].1)));
        assert(lookup(old(service).entries(), file@) == Some(
            old(service).entries()[i as int].1,
        ));
        assert(unique_names(mid2)) by {
            lemma_remove_name(mid, request.new_name@);
        }
        assert(!has_name(mid2, request.new_name@)) by {
            lemma_remove_name(mid, request.new_name@);
        }
        assert(unique_names(service.entries())) by {
            assert forall|a: int, b: int|
                0 <= a < b < service.entries().len() implies (#[trigger] service.entries()[a]).0
                != (#[trigger] service.entries()[b]).0 by {
                if b < mid2.len() {
                    assert(service.entries()[a] == mid2[a] && service.entries()[b] == mid2[b]);
                } else {
                    assert(service.entries()[a] == mid2[a]);
                    if mid2[a].0 == request.new_name@ {
                        assert(has_name(mid2, request.new_name@));
                    }
                }
            }
        }
    }
    Ok(())
}

/// Appending a record under a fresh name keeps names distinct and binds
/// exactly that name to the new content, all other names as before.
proof fn lemma_push_unique(e: Seq<(Seq<char>, Seq<u8>)>, n: Seq<char>, d: Seq<u8>)
    requires
        unique_names(e),
        !has_name(e, n),
    ensures
        unique_names(e.push((n, d))),
        has_name(e.push((n, d)), n),
        lookup(e.push((n, d)), n) == Some(d),
        forall|m: Seq<char>| m != n ==> #[trigger] has_name(e.push((n, d)), m) == has_name(e, m),
        forall|m: Seq<char>| m != n ==> #[trigger] lookup(e.push((n, d)), m) == lookup(e, m),
{
    let e2 = e.push((n, d));
    assert(e2[e.len() as int] == (n, d));
    assert forall|i: int, j: int| 0 <= i < j < e2.len() implies (#[trigger] e2[i]).0 != (
    #[trigger] e2[j]).0 by {
        if j < e.len() {
            assert(e2[i] == e[i] && e2[j] == e[j]);
        } else {
            assert(e2[i] == e[i]);
            if e[i].0 == n {
                assert(has_name(e, n));
            }
        }
    }
    lemma_idx_is(e2, n, e.len() as int);
    assert forall|m: Seq<char>| m != n implies #[trigger] has_name(e2, m) == has_name(e, m) by {
        if has_name(e, m) {
            let i = choose|i: int| 0 <= i < e.len() && (#[trigger] e[i]).0 == m;
            assert(e2[i] == e[i]);
        }
        if has_name(e2, m) {
            let j = choose|j: int| 0 <= j < e2.len() && (#[trigger] e2[j]).0 == m;
            if j < e.len() {
                assert(e2[j] == e[j]);
            }
        }
    }
    assert forall|m: Seq<char>| m != n implies #[trigger] lookup(e2, m) == lookup(e, m) by {
        if has_name(e, m) {
            let i = idx_of(e, m);
            assert(e[i].0 == m);
            assert(e2[i] == e[i]);
            lemma_idx_is(e2, m, i);
        }
    }
}

/// Law: after an accepted upload, exactly one record carries the uploaded
/// name, it holds the uploaded content, it stands at the end of the
/// listing with the payload's byte size, and every other name is bound as
/// before.
pub proof fn lemma_upload_then_list(e: Seq<(Seq<char>, Seq<u8>)>, name: Seq<char>, data: Seq<u8>)
    requires
        unique_names(e),
    ensures
        unique_names(upload_effect(e, name, data)),
        has_name(upload_effect(e, name, data), name),
        lookup(upload_effect(e, name, data), name) == Some(data),
        forall|i: int, j: int|
            0 <= i < upload_effect(e, name, data).len() && 0 <= j < upload_effect(
                e,
                name,
                data,
            ).len() && (#[trigger] upload_effect(e, name, data)[i]).0 == name && (
            #[trigger] upload_effect(e, name, data)[j]).0 == name ==> i == j,
        listing_of(upload_effect(e, name, data))[upload_effect(e, name, data).len() - 1] == (
        name, data.len()),
        forall|m: Seq<char>|
            m != name ==> #[trigger] lookup(upload_effect(e, name, data), m) == lookup(e, m),
{
    lemma_remove_name(e, name);
    let e1 = remove_name(e, name);
    lemma_push_unique(e1, name, data);
    let e2 = e1.push((name, data));
    assert(e2[e2.len() - 1] == (name, data));
    assert forall|i: int, j: int|
        0 <= i < e2.len() && 0 <= j < e2.len() && (#[trigger] e2[i]).0 == name && (
        #[trigger] e2[j]).0 == name implies i == j by {
        if i < j {
            assert(e2[i].0 != e2[j].0);
        }
        if j < i {
            assert(e2[j].0 != e2[i].0);
        }
    }
    assert(listing_of(e2)[e2.len() - 1] == (name, data.len()));
    assert forall|m: Seq<char>| m != name implies #[trigger] lookup(e2, m) == lookup(e, m) by {
        assert(lookup(e2, m) == lookup(e1, m));
        assert(lookup(e1, m) == lookup(e, m));
    }
}

/// Law: after an accepted delete, no record carries the deleted name: it is
/// absent from the listing, and a download of it finds nothing.
pub proof fn lemma_delete_removes(e: Seq<(Seq<char>, Seq<u8>)>, name: Seq<char>)
    requires
        unique_names(e),
    ensures
        unique_names(delete_effect(e, name)),
        !has_name(delete_effect(e, name), name),
        lookup(delete_effect(e, name), name) is None,
        forall|i: int|
            0 <= i < listing_of(delete_effect(e, name)).len() ==> (#[trigger] listing_of(
                delete_effect(e, name),
            )[i]).0 != name,
        forall|m: Seq<char>|
            m != name ==> #[trigger] lookup(delete_effect(e, name), m) == lookup(e, m),
{
    lemma_remove_name(e, name);
    let e1 = delete_effect(e, name);
    assert forall|i: int| 0 <= i < listing_of(e1).len() implies (#[trigger] listing_of(e1)[i]).0
        != name by {
        if e1[i].0 == name {
            assert(has_name(e1, name));
        }
    }
}

/// Law: after an accepted rename, the new name is bound to exactly the
/// content the old name held, and the old name is absent from listing and
/// download alike.
pub proof fn lemma_rename_moves(e: Seq<(Seq<char>, Seq<u8>)>, o: Seq<char>, n: Seq<char>)
    requires
        unique_names(e),
        has_name(e, o),
        o != n,
    ensures
        unique_names(rename_effect(e, o, n)),
        has_name(rename_effect(e, o, n), n),
        lookup(rename_effect(e, o, n), n) == lookup(e, o),
        !has_name(rename_effect(e, o, n), o),
        lookup(rename_effect(e, o, n), o) is None,
{
    lemma_remove_name(e, o);
    let e1 = remove_name(e, o);
    lemma_remove_name(e1, n);
    let e2 = remove_name(e1, n);
    lemma_push_unique(e2, n, lookup(e, o).unwrap());
    let e3 = e2.push((n, lookup(e, o).unwrap()));
    assert(rename_effect(e, o, n) == e3);
    assert(!has_name(e2, o));
    assert(!has_name(e3, o));
    assert(lookup(e3, o) is None);
}

} // verus!

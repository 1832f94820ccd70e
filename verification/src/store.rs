//! The snapshot store, modelled over an explicit image of its directory.
//!
//! The store owns one directory; each record lives in one file whose name
//! derives from the snapshot name by appending a fixed suffix, a reversible
//! and collision-free encoding since valid snapshot names never differ only
//! past their end. A save writes the whole record under a temporary file
//! name first and then renames it over the final name, so a crash between
//! the two steps never changes what a load observes; the lemmas at the end
//! state that discipline's guarantees.
//!
//! The surrounding binary mirrors every operation here one file call at a
//! time: the contracts describe exactly the directory contents it maintains.

use vstd::prelude::*;

use crate::codec::{
    dec_record, enc_record, encode_record, parse_err, parse_record, SCHEMA_VERSION,
};
use crate::error::StoreError;
use crate::layout::{
    bytes_eq, clone_bytes, is_valid_name, layout_wf, record_wf, valid_name, LayoutV, RecordV,
    SnapshotRecord, WorkspaceLayout, MAX_FIELD,
};

verus! {

/// One file of the store directory: its name and its contents.
pub struct FileEntry {
    pub name: Vec<u8>,
    pub data: Vec<u8>,
}

/// An image of the store directory: its files, names unique.
pub struct StoreImage {
    pub files: Vec<FileEntry>,
}

/// Well-formedness of an image: no two files share a name.
pub open spec fn image_wf(im: StoreImage) -> bool {
    forall|i: int, j: int|
        0 <= i < j < im.files@.len() ==> (#[trigger] im.files@[i]).name@ != (
        #[trigger] im.files@[j]).name@
}

/// First-match lookup of a file name in a sequence of entries.
pub open spec fn lookup_in(s: Seq<FileEntry>, f: Seq<u8>) -> Option<Seq<u8>>
    decreases s.len(),
{
    if s.len() == 0 {
        None
    } else if s[0].name@ == f {
        Some(s[0].data@)
    } else {
        lookup_in(s.skip(1), f)
    }
}

/// The contents of the file named `f`, if the image holds one.
pub open spec fn store_lookup(im: StoreImage, f: Seq<u8>) -> Option<Seq<u8>> {
    lookup_in(im.files@, f)
}

/// The suffix of a committed record file.
pub open spec fn snap_suffix() -> Seq<u8> {
    seq![46u8, 115u8, 110u8, 97u8, 112u8]  // ".snap"
}

/// The suffix of an in-flight temporary file.
pub open spec fn temp_suffix() -> Seq<u8> {
    seq![46u8, 116u8, 109u8, 112u8]  // ".tmp"
}

/// The committed file name a snapshot name maps to.
pub open spec fn file_name_for(name: Seq<u8>) -> Seq<u8> {
    name + snap_suffix()
}

/// The temporary file name a save of `name` writes first.
pub open spec fn temp_name_for(name: Seq<u8>) -> Seq<u8> {
    name + temp_suffix()
}

/// The record a save of these arguments writes.
pub open spec fn saved_record_v(
    name: Seq<u8>,
    description: Option<Seq<u8>>,
    created_at: u64,
    layout: LayoutV,
) -> RecordV {
    RecordV { name, description, created_at, schema_version: SCHEMA_VERSION, layout }
}

/// What a load of `name` returns, as a function of the image.
pub open spec fn load_result_v(im: StoreImage, name: Seq<u8>) -> Result<RecordV, StoreError> {
    match store_lookup(im, file_name_for(name)) {
        None => Err(StoreError::NotFound),
        Some(bytes) => match dec_record(bytes) {
            Some(r) => Ok(r),
            None => Err(parse_err(bytes)),
        },
    }
}

/// Appending the two distinct suffixes can never yield the same file name,
/// whatever the two snapshot names: at four bytes before the end, one
/// string holds `s` and the other `.`.
pub proof fn lemma_file_temp_distinct(a: Seq<u8>, b: Seq<u8>)
    ensures
        file_name_for(a) != temp_name_for(b),
{
    let f = file_name_for(a);
    let t = temp_name_for(b);
    if f.len() == t.len() {
        assert(f[f.len() - 4] == 115);
        assert(t[t.len() - 4] == 46);
    }
}

/// The committed file name determines the snapshot name: the mapping from
/// names to files is injective, so records never collide.
pub proof fn lemma_file_name_injective(a: Seq<u8>, b: Seq<u8>)
    requires
        file_name_for(a) == file_name_for(b),
    ensures
        a == b,
{
    assert(snap_suffix().len() == 5);
    assert(file_name_for(a).len() == a.len() + 5);
    assert(file_name_for(b).len() == b.len() + 5);
    assert(a.len() == b.len());
    assert forall|i: int| 0 <= i < a.len() implies a[i] == b[i] by {
        assert(file_name_for(a)[i] == a[i]);
        assert(file_name_for(b)[i] == b[i]);
    }
    assert(a =~= b);
}

/// A file present at index `i` of a well-formed sequence is what lookup
/// finds under its name.
proof fn lemma_lookup_present(s: Seq<FileEntry>, i: int)
    requires
        0 <= i < s.len(),
        forall|p: int, q: int|
            0 <= p < q < s.len() ==> (#[trigger] s[p]).name@ != (#[trigger] s[q]).name@,
    ensures
        lookup_in(s, s[i].name@) == Some(s[i].data@),
    decreases s.len(),
{
    if i == 0 {
    } else {
        assert(s[0].name@ != s[i].name@);
        assert(s.skip(1)[i - 1] == s[i]);
        lemma_lookup_present(s.skip(1), i - 1);
    }
}

/// A name no entry carries is not found.
proof fn lemma_lookup_absent(s: Seq<FileEntry>, f: Seq<u8>)
    requires
        forall|i: int| 0 <= i < s.len() ==> (#[trigger] s[i]).name@ != f,
    ensures
        lookup_in(s, f) is None,
    decreases s.len(),
{
    if s.len() > 0 {
        lemma_lookup_absent(s.skip(1), f);
    }
}

/// Replacing the entry at `i` by one of the same name changes no other
/// name's lookup.
proof fn lemma_lookup_update(s: Seq<FileEntry>, i: int, e: FileEntry, f: Seq<u8>)
    requires
        0 <= i < s.len(),
        s[i].name@ == e.name@,
        f != e.name@,
    ensures
        lookup_in(s.update(i, e), f) == lookup_in(s, f),
    decreases s.len(),
{
    let s2 = s.update(i, e);
    if i == 0 {
        assert(s2.skip(1) =~= s.skip(1));
    } else {
        assert(s2[0] == s[0]);
        assert(s2.skip(1) =~= s.skip(1).update(i - 1, e));
        lemma_lookup_update(s.skip(1), i - 1, e, f);
    }
}

/// Appending an entry changes no other name's lookup, and makes its own
/// name found when it was absent.
proof fn lemma_lookup_push(s: Seq<FileEntry>, e: FileEntry, f: Seq<u8>)
    ensures
        f != e.name@ ==> lookup_in(s.push(e), f) == lookup_in(s, f),
        (forall|i: int| 0 <= i < s.len() ==> (#[trigger] s[i]).name@ != e.name@) ==> lookup_in(
            s.push(e),
            e.name@,
        ) == Some(e.data@),
    decreases s.len(),
{
    let sp = s.push(e);
    if s.len() == 0 {
        assert(sp[0] == e);
        assert(sp.skip(1) =~= Seq::<FileEntry>::empty());
        if f != e.name@ {
            assert(lookup_in(sp, f) == lookup_in(sp.skip(1), f));
            assert(lookup_in(sp, f) is None);
            assert(lookup_in(s, f) is None);
        }
        assert(lookup_in(sp, e.name@) == Some(e.data@));
    } else {
        assert(sp[0] == s[0]);
        assert(sp.skip(1) =~= s.skip(1).push(e));
        lemma_lookup_push(s.skip(1), e, f);
        if f != e.name@ && s[0].name@ != f {
            assert(lookup_in(sp, f) == lookup_in(s.skip(1).push(e), f));
            assert(lookup_in(s, f) == lookup_in(s.skip(1), f));
        }
        if (forall|i: int| 0 <= i < s.len() ==> (#[trigger] s[i]).name@ != e.name@) {
            assert(s[0].name@ != e.name@);
            assert forall|i: int|
                0 <= i < s.skip(1).len() implies (#[trigger] s.skip(1)[i]).name@ != e.name@ by {
                assert(s.skip(1)[i] == s[i + 1]);
            }
            lemma_lookup_push(s.skip(1), e, e.name@);
            assert(lookup_in(sp, e.name@) == lookup_in(s.skip(1).push(e), e.name@));
        }
    }
}

/// Removing the entry at `i` changes no other name's lookup; under
/// uniqueness its own name becomes absent.
proof fn lemma_lookup_remove(s: Seq<FileEntry>, i: int, f: Seq<u8>)
    requires
        0 <= i < s.len(),
        forall|p: int, q: int|
            0 <= p < q < s.len() ==> (#[trigger] s[p]).name@ != (#[trigger] s[q]).name@,
    ensures
        f != s[i].name@ ==> lookup_in(s.remove(i), f) == lookup_in(s, f),
        lookup_in(s.remove(i), s[i].name@) is None,
    decreases s.len(),
{
    let s2 = s.remove(i);
    if i == 0 {
        assert(s2 =~= s.skip(1));
        assert(forall|j: int| 0 <= j < s.skip(1).len() ==> (#[trigger] s.skip(1)[j]).name@ != s[
            0].name@);
        lemma_lookup_absent(s.skip(1), s[0].name@);
    } else {
        assert(s2[0] == s[0]);
        assert(s2.skip(1) =~= s.skip(1).remove(i - 1));
        assert(s.skip(1)[i - 1] == s[i]);
        lemma_lookup_remove(s.skip(1), i - 1, f);
        lemma_lookup_remove(s.skip(1), i - 1, s[i].name@);
    }
}

/// The committed file name of a snapshot name.
fn make_file_name(name: &Vec<u8>) -> (r: Vec<u8>)
    ensures
        r@ == file_name_for(name@),
{
    let mut out = clone_bytes(name);
    out.push(46u8);
    out.push(115u8);
    out.push(110u8);
    out.push(97u8);
    out.push(112u8);
    assert(out@ =~= file_name_for(name@));
    out
}

/// The temporary file name of a snapshot name.
fn make_temp_name(name: &Vec<u8>) -> (r: Vec<u8>)
    ensures
        r@ == temp_name_for(name@),
{
    let mut out = clone_bytes(name);
    out.push(46u8);
    out.push(116u8);
    out.push(109u8);
    out.push(112u8);
    assert(out@ =~= temp_name_for(name@));
    out
}

/// Finds the index of the file named `f`.
fn find_index(im: &StoreImage, f: &Vec<u8>) -> (r: Option<usize>)
    ensures
        match r {
            Some(i) => i < im.files@.len() && im.files@[i as int].name@ == f@ && store_lookup(
                *im,
                f@,
            ) == Some(im.files@[i as int].data@),
            None => store_lookup(*im, f@) is None,
        },
{
    let ghost files = im.files@;
    proof {
        assert(files.skip(0) =~= files);
    }
    let mut i: usize = 0;
    while i < im.files.len()
        invariant
            files == im.files@,
            i <= files.len(),
            lookup_in(files, f@) == lookup_in(files.skip(i as int), f@),
        decreases files.len() - i,
    {
        proof {
            assert(files.skip(i as int)[0] == files[i as int]);
        }
        if bytes_eq(&im.files[i].name, f) {
            proof {
                assert(lookup_in(files.skip(i as int), f@) == Some(files[i as int].data@));
            }
            return Some(i);
        }
        proof {
            assert(files.skip(i as int).skip(1) =~= files.skip(i + 1));
        }
        i = i + 1;
    }
    proof {
        assert(files.skip(files.len() as int).len() == 0);
    }
    None
}

/// Writes or replaces one file.
fn image_put(im: &mut StoreImage, fname: Vec<u8>, data: Vec<u8>)
    requires
        image_wf(*old(im)),
    ensures
        image_wf(*final(im)),
        store_lookup(*final(im), fname@) == Some(data@),
        forall|g: Seq<u8>|
            g != fname@ ==> #[trigger] store_lookup(*final(im), g) == store_lookup(*old(im), g),
{
    let ghost old_files = im.files@;
    match find_index(im, &fname) {
        Some(i) => {
            let entry = FileEntry { name: fname, data };
            let ghost e = entry;
            im.files[i] = entry;
            proof {
                assert(im.files@ =~= old_files.update(i as int, e));
                assert forall|g: Seq<u8>| g != e.name@ implies #[trigger] lookup_in(
                    im.files@,
                    g,
                ) == lookup_in(old_files, g) by {
                    lemma_lookup_update(old_files, i as int, e, g);
                }
                lemma_lookup_present(im.files@, i as int);
            }
        },
        None => {
            let entry = FileEntry { name: fname, data };
            let ghost e = entry;
            proof {
                assert forall|i: int| 0 <= i < old_files.len() implies (
                #[trigger] old_files[i]).name@ != e.name@ by {
                    if old_files[i].name@ == e.name@ {
                        lemma_lookup_present(old_files, i);
                    }
                }
            }
            im.files.push(entry);
            proof {
                assert(im.files@ =~= old_files.push(e));
                assert forall|g: Seq<u8>| g != e.name@ implies #[trigger] lookup_in(
                    im.files@,
                    g,
                ) == lookup_in(old_files, g) by {
                    lemma_lookup_push(old_files, e, g);
                }
                lemma_lookup_push(old_files, e, e.name@);
            }
        },
    }
}

/// Removes one file if present; yields its contents.
fn image_remove(im: &mut StoreImage, fname: &Vec<u8>) -> (r: Option<Vec<u8>>)
    requires
        image_wf(*old(im)),
    ensures
        image_wf(*final(im)),
        match r {
            Some(data) => store_lookup(*old(im), fname@) == Some(data@) && store_lookup(
                *final(im),
                fname@,
            ) is None,
            None => store_lookup(*old(im), fname@) is None && *final(im) == *old(im),
        },
        forall|g: Seq<u8>|
            g != fname@ ==> #[trigger] store_lookup(*final(im), g) == store_lookup(*old(im), g),
{
    let ghost old_files = im.files@;
    match find_index(im, fname) {
        Some(i) => {
            let entry = im.files.remove(i);
            proof {
                assert(im.files@ =~= old_files.remove(i as int));
                assert forall|g: Seq<u8>| g != fname@ implies #[trigger] lookup_in(
                    im.files@,
                    g,
                ) == lookup_in(old_files, g) by {
                    lemma_lookup_remove(old_files, i as int, g);
                }
                lemma_lookup_remove(old_files, i as int, fname@);
            }
            Some(entry.data)
        },
        None => None,
    }
}

/// Writes the record under the temporary file name, the first half of a
/// save. Until `save_commit` runs, the committed file of `name` — and of
/// every other snapshot — is untouched, so a crash here loses nothing.
pub fn save_prepare(
    im: &mut StoreImage,
    name: &Vec<u8>,
    description: Option<Vec<u8>>,
    created_at: u64,
    layout: WorkspaceLayout,
) -> (r: Result<(), StoreError>)
    requires
        image_wf(*old(im)),
        layout_wf(layout@),
        description matches Some(d) ==> d@.len() <= MAX_FIELD,
    ensures
        image_wf(*final(im)),
        !valid_name(name@) ==> r == Err::<(), StoreError>(StoreError::InvalidName) && *final(im)
            == *old(im),
        valid_name(name@) ==> r == Ok::<(), StoreError>(()) && store_lookup(
            *final(im),
            temp_name_for(name@),
        ) == Some(
            enc_record(
                saved_record_v(
                    name@,
                    match description {
                        None => None,
                        Some(d) => Some(d@),
                    },
                    created_at,
                    layout@,
                ),
            ),
        ),
        forall|g: Seq<u8>|
            g != temp_name_for(name@) ==> #[trigger] store_lookup(*final(im), g) == store_lookup(
                *old(im),
                g,
            ),
{
    if !is_valid_name(name) {
        return Err(StoreError::InvalidName);
    }
    let temp = make_temp_name(name);
    let rec = SnapshotRecord {
        name: clone_bytes(name),
        description,
        created_at,
        schema_version: SCHEMA_VERSION,
        layout,
    };
    assert(record_wf(rec@));
    let bytes = encode_record(&rec);
    image_put(im, temp, bytes);
    Ok(())
}

/// Renames the temporary file of `name` over its committed file: the
/// atomic second half of a save. From this step on — and only from it —
/// a load of `name` sees the new record.
pub fn save_commit(im: &mut StoreImage, name: &Vec<u8>) -> (r: Result<(), StoreError>)
    requires
        image_wf(*old(im)),
    ensures
        image_wf(*final(im)),
        store_lookup(*old(im), temp_name_for(name@)) is None ==> r == Err::<(), StoreError>(
            StoreError::NotFound,
        ) && *final(im) == *old(im),
        store_lookup(*old(im), temp_name_for(name@)) matches Some(data) ==> r == Ok::<
            (),
            StoreError,
        >(()) && store_lookup(*final(im), file_name_for(name@)) == Some(data) && store_lookup(
            *final(im),
            temp_name_for(name@),
        ) is None,
        forall|g: Seq<u8>|
            g != temp_name_for(name@) && g != file_name_for(name@) ==> #[trigger] store_lookup(
                *final(im),
                g,
            ) == store_lookup(*old(im), g),
{
    let temp = make_temp_name(name);
    match image_remove(im, &temp) {
        None => Err(StoreError::NotFound),
        Some(data) => {
            proof {
                lemma_file_temp_distinct(name@, name@);
            }
            let fname = make_file_name(name);
            image_put(im, fname, data);
            Ok(())
        },
    }
}

/// Saves a record under `name`: validates the name, writes the encoded
/// record to the temporary file, then renames it over the committed file.
/// An existing record of the same name is replaced; no other file moves.
pub fn save(
    im: &mut StoreImage,
    name: &Vec<u8>,
    description: Option<Vec<u8>>,
    created_at: u64,
    layout: WorkspaceLayout,
) -> (r: Result<(), StoreError>)
    requires
        image_wf(*old(im)),
        layout_wf(layout@),
        description matches Some(d) ==> d@.len() <= MAX_FIELD,
    ensures
        image_wf(*final(im)),
        !valid_name(name@) ==> r == Err::<(), StoreError>(StoreError::InvalidName) && *final(im)
            == *old(im),
        valid_name(name@) ==> r == Ok::<(), StoreError>(()) && store_lookup(
            *final(im),
            file_name_for(name@),
        ) == Some(
            enc_record(
                saved_record_v(
                    name@,
                    match description {
                        None => None,
                        Some(d) => Some(d@),
                    },
                    created_at,
                    layout@,
                ),
            ),
        ) && store_lookup(*final(im), temp_name_for(name@)) is None,
        valid_name(name@) ==> load_result_v(*final(im), name@) == Ok::<RecordV, StoreError>(
            saved_record_v(
                name@,
                match description {
                    None => None,
                    Some(d) => Some(d@),
                },
                created_at,
                layout@,
            ),
        ),
        forall|g: Seq<u8>|
            g != temp_name_for(name@) && g != file_name_for(name@) ==> #[trigger] store_lookup(
                *final(im),
                g,
            ) == store_lookup(*old(im), g),
{
    let ghost lv = layout@;
    let ghost dv = match description {
        None => None,
        Some(ref d) => Some(d@),
    };
    match save_prepare(im, name, description, created_at, layout) {
        Err(e) => Err(e),
        Ok(()) => {
            let r = save_commit(im, name);
            assert(r is Ok);
            proof {
                lemma_save_load_round_trip(*im, name@, dv, created_at, lv);
            }
            Ok(())
        },
    }
}

/// Loads the record saved under `name`: `NotFound` without a committed
/// file, `Corrupt` or `UnsupportedVersion` as the stored bytes dictate.
pub fn load(im: &StoreImage, name: &Vec<u8>) -> (r: Result<SnapshotRecord, StoreError>)
    ensures
        r matches Ok(rec) ==> load_result_v(*im, name@) == Ok::<RecordV, StoreError>(rec@),
        r matches Err(e) ==> load_result_v(*im, name@) == Err::<RecordV, StoreError>(e),
{
    let fname = make_file_name(name);
    match find_index(im, &fname) {
        None => Err(StoreError::NotFound),
        Some(i) => parse_record(&im.files[i].data),
    }
}

/// Deletes the record saved under `name`; `NotFound` when none exists.
pub fn delete(im: &mut StoreImage, name: &Vec<u8>) -> (r: Result<(), StoreError>)
    requires
        image_wf(*old(im)),
    ensures
        image_wf(*final(im)),
        store_lookup(*old(im), file_name_for(name@)) is None ==> r == Err::<(), StoreError>(
            StoreError::NotFound,
        ) && *final(im) == *old(im),
        store_lookup(*old(im), file_name_for(name@)) is Some ==> r == Ok::<(), StoreError>(())
            && store_lookup(*final(im), file_name_for(name@)) is None,
        forall|g: Seq<u8>|
            g != file_name_for(name@) ==> #[trigger] store_lookup(*final(im), g) == store_lookup(
                *old(im),
                g,
            ),
{
    let fname = make_file_name(name);
    match image_remove(im, &fname) {
        None => Err(StoreError::NotFound),
        Some(_) => Ok(()),
    }
}


// ---------------------------------------------------------------------------
// Listing.
// ---------------------------------------------------------------------------

/// One line of a listing: what `list` reports of a record.
pub struct SnapshotSummary {
    pub name: Vec<u8>,
    pub description: Option<Vec<u8>>,
    pub created_at: u64,
}

/// Mathematical view of a summary.
pub ghost struct SummaryV {
    pub name: Seq<u8>,
    pub description: Option<Seq<u8>>,
    pub created_at: u64,
}

impl View for SnapshotSummary {
    type V = SummaryV;

    open spec fn view(&self) -> SummaryV {
        SummaryV {
            name: self.name@,
            description: match &self.description {
                None => None,
                Some(d) => Some(d@),
            },
            created_at: self.created_at,
        }
    }
}

/// The summary of a record.
pub open spec fn summary_of(r: RecordV) -> SummaryV {
    SummaryV { name: r.name, description: r.description, created_at: r.created_at }
}

/// Whether a file name carries the committed-record suffix.
pub open spec fn is_snap_file(f: Seq<u8>) -> bool {
    f.len() >= 5 && f.skip(f.len() - 5) == snap_suffix()
}

/// What one file contributes to a listing: the summary of its record if it
/// is a committed file that decodes, nothing otherwise.
pub open spec fn listing_of(e: FileEntry) -> Seq<SummaryV> {
    if is_snap_file(e.name@) {
        match dec_record(e.data@) {
            Some(r) => seq![summary_of(r)],
            None => Seq::empty(),
        }
    } else {
        Seq::empty()
    }
}

/// Every summary the image's files contribute, in file order.
pub open spec fn summaries_in(files: Seq<FileEntry>) -> Seq<SummaryV>
    decreases files.len(),
{
    if files.len() == 0 {
        Seq::empty()
    } else {
        listing_of(files[0]) + summaries_in(files.skip(1))
    }
}

/// View of a summary vector.
pub open spec fn summaries_view(v: Seq<SnapshotSummary>) -> Seq<SummaryV> {
    v.map_values(|s: SnapshotSummary| s@)
}

/// `summaries_in` distributes over appending one file.
proof fn lemma_summaries_snoc(s: Seq<FileEntry>, e: FileEntry)
    ensures
        summaries_in(s.push(e)) == summaries_in(s) + listing_of(e),
    decreases s.len(),
{
    if s.len() == 0 {
        assert(s.push(e)[0] == e);
        assert(s.push(e).skip(1) =~= Seq::<FileEntry>::empty());
        assert(summaries_in(s.push(e).skip(1)) == Seq::<SummaryV>::empty());
        assert(summaries_in(s.push(e)) == listing_of(e) + Seq::<SummaryV>::empty());
        assert(listing_of(e) + Seq::<SummaryV>::empty() =~= Seq::<SummaryV>::empty() + listing_of(
            e,
        ));
        assert(summaries_in(s) == Seq::<SummaryV>::empty());
    } else {
        assert(s.push(e)[0] == s[0]);
        assert(s.push(e).skip(1) =~= s.skip(1).push(e));
        lemma_summaries_snoc(s.skip(1), e);
        assert(summaries_in(s.push(e)) == listing_of(s[0]) + (summaries_in(s.skip(1))
            + listing_of(e)));
        assert(listing_of(s[0]) + (summaries_in(s.skip(1)) + listing_of(e)) =~= (listing_of(s[0])
            + summaries_in(s.skip(1))) + listing_of(e));
    }
}

/// Whether a file name ends in the committed-record suffix.
fn ends_with_snap(f: &Vec<u8>) -> (r: bool)
    ensures
        r == is_snap_file(f@),
{
    if f.len() < 5 {
        return false;
    }
    let n = f.len() - 5;
    let ok = f[n] == 46 && f[n + 1] == 115 && f[n + 2] == 110 && f[n + 3] == 97 && f[n + 4] == 112;
    proof {
        let t = f@.skip(n as int);
        assert(t[0] == f@[n as int]);
        assert(t[1] == f@[n + 1]);
        assert(t[2] == f@[n + 2]);
        assert(t[3] == f@[n + 3]);
        assert(t[4] == f@[n + 4]);
        if ok {
            assert(t =~= snap_suffix());
        } else {
            assert(t != snap_suffix());
        }
    }
    ok
}

/// Lists the committed records of the image: one summary per file that
/// carries the record suffix and decodes, newest first.
pub fn list(im: &StoreImage) -> (r: Vec<SnapshotSummary>)
    ensures
        summaries_view(r@).to_multiset() == summaries_in(im.files@).to_multiset(),
        forall|p: int, q: int|
            0 <= p < q < r@.len() ==> r@[p].created_at >= r@[q].created_at,
{
    broadcast use vstd::seq_lib::group_to_multiset_ensures;

    let ghost files = im.files@;
    let mut collected: Vec<SnapshotSummary> = Vec::new();
    proof {
        assert(summaries_view(collected@) =~= summaries_in(files.take(0)));
    }
    for i in 0..im.files.len()
        invariant
            files == im.files@,
            summaries_view(collected@) == summaries_in(files.take(i as int)),
    {
        let ghost old_collected = collected@;
        let entry = &im.files[i];
        if ends_with_snap(&entry.name) {
            match parse_record(&entry.data) {
                Ok(rec) => {
                    let s = SnapshotSummary {
                        name: rec.name,
                        description: rec.description,
                        created_at: rec.created_at,
                    };
                    let ghost sv = s@;
                    collected.push(s);
                    proof {
                        assert(listing_of(files[i as int]) =~= seq![sv]);
                        assert(summaries_view(collected@) =~= summaries_view(old_collected).push(
                            sv,
                        ));
                        assert(summaries_view(old_collected).push(sv) =~= summaries_view(
                            old_collected,
                        ) + seq![sv]);
                    }
                },
                Err(_) => {
                    proof {
                        assert(listing_of(files[i as int]) =~= Seq::<SummaryV>::empty());
                        assert(summaries_view(collected@) + Seq::<SummaryV>::empty()
                            =~= summaries_view(collected@));
                    }
                },
            }
        } else {
            proof {
                assert(listing_of(files[i as int]) =~= Seq::<SummaryV>::empty());
                assert(summaries_view(collected@) + Seq::<SummaryV>::empty() =~= summaries_view(
                    collected@,
                ));
            }
        }
        proof {
            lemma_summaries_snoc(files.take(i as int), files[i as int]);
            assert(files.take(i as int).push(files[i as int]) =~= files.take(i + 1));
        }
    }
    proof {
        assert(files.take(files.len() as int) =~= files);
    }
    let ghost total = summaries_view(collected@);
    let mut input = collected;
    let mut out: Vec<SnapshotSummary> = Vec::new();
    proof {
        assert(summaries_view(out@) =~= Seq::<SummaryV>::empty());
        assert(summaries_view(out@).to_multiset().add(summaries_view(input@).to_multiset())
            =~= total.to_multiset());
    }
    while input.len() > 0
        invariant
            summaries_view(out@).to_multiset().add(summaries_view(input@).to_multiset())
                == total.to_multiset(),
            forall|p: int, q: int|
                0 <= p < q < out@.len() ==> out@[p].created_at >= out@[q].created_at,
            forall|p: int, q: int|
                0 <= p < out@.len() && 0 <= q < input@.len() ==> out@[p].created_at
                    >= input@[q].created_at,
        decreases input.len(),
    {
        let mut best: usize = 0;
        let mut j: usize = 1;
        while j < input.len()
            invariant
                best < input@.len(),
                j <= input@.len(),
                input@.len() > 0,
                forall|q: int|
                    0 <= q < j ==> input@[best as int].created_at >= (
                    #[trigger] input@[q]).created_at,
            decreases input@.len() - j,
        {
            if input[j].created_at > input[best].created_at {
                best = j;
            }
            j = j + 1;
        }
        let ghost old_in = input@;
        let ghost old_out = out@;
        let e = input.remove(best);
        let ghost ev = e@;
        out.push(e);
        proof {
            assert(ev == old_in[best as int]@);
            summaries_view(old_in).to_multiset_ensures();
            summaries_view(old_out).to_multiset_ensures();
            assert(summaries_view(out@) =~= summaries_view(old_out).push(ev));
            assert(summaries_view(input@) =~= summaries_view(old_in).remove(best as int));
            assert(summaries_view(old_in)[best as int] == ev);
            assert(summaries_view(old_in).remove(best as int).to_multiset() =~= summaries_view(
                old_in,
            ).to_multiset().remove(ev));
            assert(summaries_view(old_in).to_multiset().count(ev) > 0) by {
                assert(summaries_view(old_in).contains(ev));
            }
            assert(summaries_view(old_out).push(ev).to_multiset() =~= summaries_view(
                old_out,
            ).to_multiset().insert(ev));
            assert(summaries_view(old_out).to_multiset().insert(ev).add(
                summaries_view(old_in).to_multiset().remove(ev),
            ) =~= summaries_view(old_out).to_multiset().add(summaries_view(old_in).to_multiset()));
            assert forall|q: int| 0 <= q < input@.len() implies out@[out@.len() - 1].created_at
                >= (#[trigger] input@[q]).created_at by {
                if q < best {
                    assert(input@[q] == old_in[q]);
                } else {
                    assert(input@[q] == old_in[q + 1]);
                }
            }
        }
    }
    out
}

// ---------------------------------------------------------------------------
// The store's laws.
// ---------------------------------------------------------------------------

/// Round trip: in any image where the committed file of `name` holds the
/// encoding a save of these arguments writes — which `save` ensures — a
/// load of `name` returns exactly that record, its layout included.
pub proof fn lemma_save_load_round_trip(
    im: StoreImage,
    name: Seq<u8>,
    description: Option<Seq<u8>>,
    created_at: u64,
    layout: LayoutV,
)
    requires
        valid_name(name),
        description matches Some(d) ==> d.len() <= MAX_FIELD,
        layout_wf(layout),
        store_lookup(im, file_name_for(name)) == Some(
            enc_record(saved_record_v(name, description, created_at, layout)),
        ),
    ensures
        load_result_v(im, name) == Ok::<RecordV, StoreError>(
            saved_record_v(name, description, created_at, layout),
        ),
{
    let rec = saved_record_v(name, description, created_at, layout);
    crate::codec::lemma_dec_enc_record(rec);
}

/// Idempotence of delete: one that succeeded leaves nothing under the
/// name, so a second delete of the same name reports `NotFound` — and, by
/// `delete`'s contract, leaves the image as it is.
pub proof fn lemma_delete_idempotent(im0: StoreImage, im1: StoreImage, name: Seq<u8>)
    requires
        store_lookup(im0, file_name_for(name)) is Some,
        store_lookup(im1, file_name_for(name)) is None,
    ensures
        load_result_v(im1, name) == Err::<RecordV, StoreError>(StoreError::NotFound),
{
}

/// Atomicity: a save that stopped after its temporary write — the image
/// changed at most under the temporary name, which `save_prepare` ensures —
/// is invisible to every load: each returns what it returned before.
pub proof fn lemma_interrupted_save_invisible(
    im0: StoreImage,
    im1: StoreImage,
    name: Seq<u8>,
    probe: Seq<u8>,
)
    requires
        forall|g: Seq<u8>|
            g != temp_name_for(name) ==> #[trigger] store_lookup(im1, g) == store_lookup(im0, g),
    ensures
        load_result_v(im1, probe) == load_result_v(im0, probe),
{
    lemma_file_temp_distinct(probe, name);
}

/// Independence: a save or delete of one snapshot never changes what a
/// load of any other name returns. A save touches only the committed and
/// temporary files of its own name — which no other name maps to, the
/// name-to-file encoding being injective — and a delete only the
/// committed file.
pub proof fn lemma_other_names_unchanged(
    im0: StoreImage,
    im1: StoreImage,
    name: Seq<u8>,
    probe: Seq<u8>,
)
    requires
        probe != name,
        forall|g: Seq<u8>|
            g != temp_name_for(name) && g != file_name_for(name) ==> #[trigger] store_lookup(
                im1,
                g,
            ) == store_lookup(im0, g),
    ensures
        load_result_v(im1, probe) == load_result_v(im0, probe),
{
    lemma_file_temp_distinct(probe, name);
    if file_name_for(probe) == file_name_for(name) {
        lemma_file_name_injective(probe, name);
    }
}

/// Uniqueness: after two saves under one name, a load sees only the later
/// record; the earlier one is gone whenever the layouts differ.
pub proof fn lemma_second_save_wins(
    im2: StoreImage,
    name: Seq<u8>,
    description1: Option<Seq<u8>>,
    created_at1: u64,
    layout1: LayoutV,
    description2: Option<Seq<u8>>,
    created_at2: u64,
    layout2: LayoutV,
)
    requires
        valid_name(name),
        description2 matches Some(d) ==> d.len() <= MAX_FIELD,
        layout_wf(layout2),
        store_lookup(im2, file_name_for(name)) == Some(
            enc_record(saved_record_v(name, description2, created_at2, layout2)),
        ),
    ensures
        load_result_v(im2, name) == Ok::<RecordV, StoreError>(
            saved_record_v(name, description2, created_at2, layout2),
        ),
        layout1 != layout2 ==> load_result_v(im2, name) != Ok::<RecordV, StoreError>(
            saved_record_v(name, description1, created_at1, layout1),
        ),
{
    lemma_save_load_round_trip(im2, name, description2, created_at2, layout2);
}

} // verus!

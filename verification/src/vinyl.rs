//! In-memory files and sets of them ("vinyls"), the unit of work that tasks pass
//! along a pipeline.

use vstd::prelude::*;
use crate::paths::{
    join, spec_join, file_stem, extension, spec_file_stem, spec_extension, with_file_name,
    path_with_file_name, path_eq, paths_equal,
};
use crate::text::{lower_hex, spec_lower_hex, replace_all, spec_replace};

verus! {

broadcast use vstd::string::group_string_axioms;

/// The error a file operation reports: a message.
pub struct VinylError {
    pub msg: String,
}

impl VinylError {
    /// The error's text, `VinylError: <msg>`.
    pub fn to_string(&self) -> (r: String)
        ensures
            r@ == seq!['V', 'i', 'n', 'y', 'l', 'E', 'r', 'r', 'o', 'r', ':', ' '] + self.msg@,
    {
        let mut r = String::from_str("VinylError: ");
        proof {
            reveal_strlit("VinylError: ");
        }
        r.append(self.msg.as_str());
        r
    }

    /// A copy of the error.
    pub fn clone(&self) -> (r: VinylError)
        ensures
            r.msg@ == self.msg@,
    {
        VinylError { msg: self.msg.clone() }
    }
}

/// The contents of a file handle.
pub struct FileView {
    pub out_path: Seq<char>,
    pub rel_path: Seq<char>,
    pub data: Seq<u8>,
}

/// A file: the directory it goes to, its path relative to that directory, and its bytes.
pub struct FileHandle {
    pub out_path: String,
    pub rel_path: String,
    pub data: Vec<u8>,
}

impl View for FileHandle {
    type V = FileView;

    open spec fn view(&self) -> FileView {
        FileView { out_path: self.out_path@, rel_path: self.rel_path@, data: self.data@ }
    }
}

/// A write that a save asks for: the bytes and the path to put them at.
pub struct FileWrite {
    pub path: String,
    pub data: Vec<u8>,
}

impl FileHandle {
    pub fn new(out_path: String, rel_path: String, data: Vec<u8>) -> (r: FileHandle)
        ensures
            r@ == (FileView { out_path: out_path@, rel_path: rel_path@, data: data@ }),
    {
        FileHandle { out_path, rel_path, data }
    }

    /// A copy of the handle.
    pub fn clone(&self) -> (r: FileHandle)
        ensures
            r@ == self@,
    {
        let data = self.data.clone();
        assert(data@ =~= self.data@);
        FileHandle { out_path: self.out_path.clone(), rel_path: self.rel_path.clone(), data }
    }

    /// Where the file is written: its relative path joined onto its output directory.
    pub fn file_path(&self) -> (r: String)
        ensures
            r@ == spec_join(self.out_path@, self.rel_path@),
    {
        join(self.out_path.as_str(), self.rel_path.as_str())
    }

    /// The write that saving this file asks for. A file without data is refused.
    pub fn save(&self) -> (r: Result<FileWrite, VinylError>)
        ensures
            match r {
                Ok(w) => self.data@.len() > 0 && w.path@ == spec_join(
                    self.out_path@,
                    self.rel_path@,
                ) && w.data@ == self.data@,
                Err(e) => self.data@.len() == 0 && e.msg@ == empty_data_msg(),
            },
    {
        if self.data.len() > 0 {
            let data = self.data.clone();
            assert(data@ =~= self.data@);
            Ok(FileWrite { path: self.file_path(), data })
        } else {
            proof {
                reveal_strlit("Data corrupted/empty");
            }
            Err(VinylError { msg: String::from_str("Data corrupted/empty") })
        }
    }
}

/// The message a save of an empty file gives.
pub open spec fn empty_data_msg() -> Seq<char> {
    seq!['D', 'a', 't', 'a', ' ', 'c', 'o', 'r', 'r', 'u', 'p', 't', 'e', 'd', '/', 'e', 'm', 'p', 't', 'y']
}

/// One shift of the reflected CRC-32 register, with the IEEE polynomial `0xEDB88320`.
pub open spec fn crc32_shift(c: u32) -> u32 {
    if c & 1 == 1 {
        (c >> 1u32) ^ 0xEDB8_8320u32
    } else {
        c >> 1u32
    }
}

/// The register after `n` shifts.
pub open spec fn crc32_shifts(c: u32, n: nat) -> u32
    decreases n,
{
    if n == 0 {
        c
    } else {
        crc32_shift(crc32_shifts(c, (n - 1) as nat))
    }
}

/// The register after the bytes, starting from all ones: each byte is XORed into the
/// low bits, then the register is shifted eight times.
pub open spec fn crc32_register(data: Seq<u8>) -> u32
    decreases data.len(),
{
    if data.len() == 0 {
        0xFFFF_FFFFu32
    } else {
        crc32_shifts(crc32_register(data.drop_last()) ^ (data.last() as u32), 8)
    }
}

/// The CRC-32 (IEEE) of the bytes: the final register with all bits inverted.
pub open spec fn crc32_ieee(data: Seq<u8>) -> u32 {
    crc32_register(data) ^ 0xFFFF_FFFFu32
}

/// `crc::crc32::checksum_ieee`: the IEEE CRC-32 of the bytes. Its table-driven loop
/// computes, byte by byte, what the eight shifts of `crc32_register` compute.
#[verifier::external_body]
pub(crate) fn checksum_ieee(data: &[u8]) -> (r: u32)
    ensures
        r == crc32_ieee(data@),
{
    crc::crc32::checksum_ieee(data)
}

/// The contents of a vinyl.
pub struct VinylView {
    pub handles: Seq<FileView>,
    pub revision_pairs: Seq<(Seq<char>, Seq<char>)>,
}

/// A set of files in order, with the renamings that revisioning has made so far.
pub struct Vinyl {
    pub handles: Vec<FileHandle>,
    pub revision_pairs: Vec<(String, String)>,
}

pub open spec fn handle_views(hs: Seq<FileHandle>) -> Seq<FileView> {
    hs.map_values(|h: FileHandle| h@)
}

pub open spec fn pair_views(ps: Seq<(String, String)>) -> Seq<(Seq<char>, Seq<char>)> {
    ps.map_values(|p: (String, String)| (p.0@, p.1@))
}

pub proof fn lemma_handle_views_push(s: Seq<FileHandle>, x: FileHandle)
    ensures
        handle_views(s.push(x)) == handle_views(s).push(x@),
{
    assert(handle_views(s.push(x)) =~= handle_views(s).push(x@));
}

pub proof fn lemma_pair_views_push(s: Seq<(String, String)>, x: (String, String))
    ensures
        pair_views(s.push(x)) == pair_views(s).push((x.0@, x.1@)),
{
    assert(pair_views(s.push(x)) =~= pair_views(s).push((x.0@, x.1@)));
}

impl View for Vinyl {
    type V = VinylView;

    open spec fn view(&self) -> VinylView {
        VinylView {
            handles: handle_views(self.handles@),
            revision_pairs: pair_views(self.revision_pairs@),
        }
    }
}

/// The bytes of all files, one after the other.
pub open spec fn joined_data(hs: Seq<FileView>) -> Seq<u8>
    decreases hs.len(),
{
    if hs.len() == 0 {
        Seq::empty()
    } else {
        joined_data(hs.drop_last()) + hs.last().data
    }
}

/// The bytes of several files, one after the other.
pub open spec fn joined_contents(cs: Seq<Vec<u8>>) -> Seq<u8>
    decreases cs.len(),
{
    if cs.len() == 0 {
        Seq::empty()
    } else {
        joined_contents(cs.drop_last()) + cs.last()@
    }
}

/// Files that hold `cs`, in order, join to the bytes of `cs`.
pub proof fn lemma_joined_data_contents(hs: Seq<FileView>, cs: Seq<Vec<u8>>)
    requires
        hs.len() == cs.len(),
        forall|i: int| 0 <= i < hs.len() ==> #[trigger] hs[i].data == cs[i]@,
    ensures
        joined_data(hs) == joined_contents(cs),
    decreases hs.len(),
{
    if hs.len() > 0 {
        lemma_joined_data_contents(hs.drop_last(), cs.drop_last());
        assert(hs.last().data == cs.last()@);
    }
}

/// A copy of a list of strings.
pub(crate) fn clone_strings(v: &Vec<String>) -> (r: Vec<String>)
    ensures
        r@ == v@,
{
    let r = v.clone();
    assert(r@ =~= v@);
    r
}

/// The files of several vinyls, one vinyl after the other.
pub open spec fn joined_handles(vs: Seq<VinylView>) -> Seq<FileView>
    decreases vs.len(),
{
    if vs.len() == 0 {
        Seq::empty()
    } else {
        joined_handles(vs.drop_last()) + vs.last().handles
    }
}

/// The renamings of several vinyls, one vinyl after the other.
pub open spec fn joined_pairs(vs: Seq<VinylView>) -> Seq<(Seq<char>, Seq<char>)>
    decreases vs.len(),
{
    if vs.len() == 0 {
        Seq::empty()
    } else {
        joined_pairs(vs.drop_last()) + vs.last().revision_pairs
    }
}

/// A list of paths with each run of consecutive equal paths (as `Path` compares them)
/// cut down to its first element, as `Vec::dedup` does.
pub open spec fn dedup_paths(s: Seq<Seq<char>>) -> Seq<Seq<char>>
    decreases s.len(),
{
    if s.len() == 0 {
        s
    } else {
        let d = dedup_paths(s.drop_last());
        if d.len() > 0 && paths_equal(s.last(), d.last()) {
            d
        } else {
            d.push(s.last())
        }
    }
}

pub open spec fn string_views(v: Seq<String>) -> Seq<Seq<char>> {
    v.map_values(|s: String| s@)
}

/// A file that can be revisioned: its path has a stem and an extension.
pub open spec fn revisable(h: FileView) -> bool {
    spec_file_stem(h.rel_path) is Some && spec_extension(h.rel_path) is Some
}

/// The revisioned file name: `<stem>-<crc32 in hex>.<extension>`.
pub open spec fn revised_name(h: FileView) -> Seq<char> {
    spec_file_stem(h.rel_path).unwrap() + seq!['-'] + spec_lower_hex(crc32_ieee(h.data) as nat)
        + seq!['.'] + spec_extension(h.rel_path).unwrap()
}

/// The revisioned path: the relative path with its file name replaced by the revisioned one.
pub open spec fn revised_path(h: FileView) -> Seq<char> {
    path_with_file_name(h.rel_path, revised_name(h))
}

/// What saving a list of files asks for: the writes of the files before the first
/// empty one, and the error that the first empty one gives.
pub open spec fn save_prefix_len(hs: Seq<FileView>) -> int
    decreases hs.len(),
{
    if hs.len() == 0 {
        0
    } else if hs[0].data.len() == 0 {
        0
    } else {
        1 + save_prefix_len(hs.drop_first())
    }
}

/// The files before `save_prefix_len` all have data; the one at it, if any, has none.
pub proof fn lemma_save_prefix_len(hs: Seq<FileView>)
    ensures
        0 <= save_prefix_len(hs) <= hs.len(),
        forall|i: int| 0 <= i < save_prefix_len(hs) ==> #[trigger] hs[i].data.len() > 0,
        save_prefix_len(hs) < hs.len() ==> hs[save_prefix_len(hs)].data.len() == 0,
    decreases hs.len(),
{
    if hs.len() > 0 && hs[0].data.len() > 0 {
        lemma_save_prefix_len(hs.drop_first());
        assert forall|i: int| 0 <= i < save_prefix_len(hs) implies #[trigger] hs[i].data.len() > 0 by {
            if i > 0 {
                assert(hs[i] == hs.drop_first()[i - 1]);
            }
        }
    }
}

/// The vinyl that `revisions` gives: each file renamed after its checksum, and each
/// renaming recorded after the ones already held.
pub open spec fn revised_view(v: VinylView) -> VinylView {
    VinylView {
        handles: Seq::new(
            v.handles.len(),
            |i: int|
                FileView {
                    out_path: v.handles[i].out_path,
                    rel_path: revised_path(v.handles[i]),
                    data: v.handles[i].data,
                },
        ),
        revision_pairs: v.revision_pairs + Seq::new(
            v.handles.len(),
            |i: int| (v.handles[i].rel_path, revised_path(v.handles[i])),
        ),
    }
}

/// What saving the files `hs` in order asks for: a write of each file before the
/// first one without data (its bytes at its output directory joined with its relative
/// path), then, if there is such a file, its path and the error it gives.
pub open spec fn saves_of(hs: Seq<FileView>, writes: Seq<FileWrite>, failure: Option<(String, VinylError)>) -> bool {
    &&& writes.len() == save_prefix_len(hs)
    &&& forall|i: int|
        0 <= i < writes.len() ==> #[trigger] writes[i].path@ == spec_join(hs[i].out_path, hs[i].rel_path)
            && writes[i].data@ == hs[i].data
    &&& (failure is None <==> save_prefix_len(hs) == hs.len())
    &&& (failure matches Some(f) ==> f.1.msg@ == empty_data_msg() && f.0@ == spec_join(
        hs[writes.len() as int].out_path,
        hs[writes.len() as int].rel_path,
    ))
}

/// What a task gives once its inputs have been read: the vinyl it passes on, the writes
/// it asks for, in order, and the file that failed with the error it reports once
/// those are done, if any (then the vinyl is not passed on).
pub struct TaskOutcome {
    pub vinyl: Vinyl,
    pub writes: Vec<FileWrite>,
    pub failure: Option<(String, VinylError)>,
}

impl Vinyl {
    pub fn new(handles: Vec<FileHandle>) -> (r: Vinyl)
        ensures
            r@.handles == handle_views(handles@),
            r@.revision_pairs == Seq::<(Seq<char>, Seq<char>)>::empty(),
    {
        let r = Vinyl { handles, revision_pairs: Vec::new() };
        assert(pair_views(r.revision_pairs@) =~= Seq::<(Seq<char>, Seq<char>)>::empty());
        r
    }

    /// A copy of the vinyl.
    pub fn clone(&self) -> (r: Vinyl)
        ensures
            r@ == self@,
    {
        let mut handles: Vec<FileHandle> = Vec::new();
        for i in 0..self.handles.len()
            invariant
                handle_views(handles@) =~= handle_views(self.handles@).take(i as int),
        {
            let h = self.handles[i].clone();
            proof {
                lemma_handle_views_push(handles@, h);
                assert(handle_views(self.handles@).take(i + 1) =~= handle_views(
                    self.handles@,
                ).take(i as int).push(h@));
            }
            handles.push(h);
        }
        let mut pairs: Vec<(String, String)> = Vec::new();
        for i in 0..self.revision_pairs.len()
            invariant
                pair_views(pairs@) =~= pair_views(self.revision_pairs@).take(i as int),
        {
            let p = (self.revision_pairs[i].0.clone(), self.revision_pairs[i].1.clone());
            proof {
                lemma_pair_views_push(pairs@, p);
                assert(pair_views(self.revision_pairs@).take(i + 1) =~= pair_views(
                    self.revision_pairs@,
                ).take(i as int).push((p.0@, p.1@)));
            }
            pairs.push(p);
        }
        assert(handle_views(self.handles@).take(self.handles@.len() as int) =~= handle_views(
            self.handles@,
        ));
        assert(pair_views(self.revision_pairs@).take(self.revision_pairs@.len() as int)
            =~= pair_views(self.revision_pairs@));
        Vinyl { handles, revision_pairs: pairs }
    }

    /// The files to read for a load from `out_path`: each of `files`, with runs of
    /// consecutive equal paths cut to one, joined onto `out_path`.
    pub fn load_paths(out_path: &String, files: &Vec<String>) -> (r: Vec<String>)
        ensures
            r@.len() == dedup_paths(string_views(files@)).len(),
            forall|i: int|
                0 <= i < r@.len() ==> #[trigger] r@[i]@ == spec_join(
                    out_path@,
                    dedup_paths(string_views(files@))[i],
                ),
    {
        let kept = dedup(files);
        let mut r: Vec<String> = Vec::new();
        for i in 0..kept.len()
            invariant
                string_views(kept@) == dedup_paths(string_views(files@)),
                r@.len() == i,
                forall|j: int|
                    0 <= j < i ==> #[trigger] r@[j]@ == spec_join(
                        out_path@,
                        string_views(kept@)[j],
                    ),
        {
            r.push(join(out_path.as_str(), kept[i].as_str()));
        }
        r
    }

    /// The vinyl that a load of `files` from `out_path` gives, once the files that
    /// `load_paths` names have been read into `contents`, in that order.
    pub fn load(out_path: String, files: Vec<String>, contents: Vec<Vec<u8>>) -> (r: Vinyl)
        requires
            contents@.len() == dedup_paths(string_views(files@)).len(),
        ensures
            r@.handles.len() == contents@.len(),
            forall|i: int|
                0 <= i < contents@.len() ==> #[trigger] r@.handles[i] == (FileView {
                    out_path: out_path@,
                    rel_path: dedup_paths(string_views(files@))[i],
                    data: contents@[i]@,
                }),
            r@.revision_pairs.len() == 0,
    {
        let kept = dedup(&files);
        let mut handles: Vec<FileHandle> = Vec::new();
        let mut contents = contents;
        let mut i: usize = 0;
        let ghost all = contents@;
        while i < kept.len()
            invariant
                string_views(kept@) == dedup_paths(string_views(files@)),
                kept@.len() == all.len(),
                i <= kept@.len(),
                contents@ == all.subrange(i as int, all.len() as int),
                handles@.len() == i,
                forall|j: int|
                    0 <= j < i ==> #[trigger] handles@[j]@ == (FileView {
                        out_path: out_path@,
                        rel_path: string_views(kept@)[j],
                        data: all[j]@,
                    }),
            decreases kept@.len() - i,
        {
            let data = contents.remove(0);
            handles.push(FileHandle::new(out_path.clone(), kept[i].clone(), data));
            i = i + 1;
            assert(contents@ =~= all.subrange(i as int, all.len() as int));
        }
        Vinyl::new(handles)
    }

    /// `load`, where `contents` holds one entry per path that `load_paths` names;
    /// `None` where their numbers differ.
    pub fn load_checked(out_path: String, files: Vec<String>, contents: Vec<Vec<u8>>) -> (r: Option<Vinyl>)
        ensures
            match r {
                None => contents@.len() != dedup_paths(string_views(files@)).len(),
                Some(v) => contents@.len() == dedup_paths(string_views(files@)).len()
                    && v@.handles.len() == contents@.len()
                    && (forall|i: int|
                        0 <= i < contents@.len() ==> #[trigger] v@.handles[i] == (FileView {
                            out_path: out_path@,
                            rel_path: dedup_paths(string_views(files@))[i],
                            data: contents@[i]@,
                        }))
                    && v@.revision_pairs.len() == 0,
            },
    {
        let paths = Vinyl::load_paths(&out_path, &files);
        if paths.len() == contents.len() {
            Some(Vinyl::load(out_path, files, contents))
        } else {
            None
        }
    }

    /// One file at `rel_path` under `out_path` that holds the bytes of all files in order.
    pub fn concat(self, out_path: String, rel_path: String) -> (r: Vinyl)
        ensures
            r@.handles == seq![
                FileView {
                    out_path: out_path@,
                    rel_path: rel_path@,
                    data: joined_data(self@.handles),
                },
            ],
            r@.revision_pairs.len() == 0,
    {
        let mut data: Vec<u8> = Vec::new();
        for i in 0..self.handles.len()
            invariant
                data@ == joined_data(handle_views(self.handles@).take(i as int)),
        {
            proof {
                assert(handle_views(self.handles@).take(i + 1).drop_last() =~= handle_views(
                    self.handles@,
                ).take(i as int));
            }
            data.extend_from_slice(self.handles[i].data.as_slice());
        }
        assert(handle_views(self.handles@).take(self.handles@.len() as int) =~= handle_views(
            self.handles@,
        ));
        let mut hs: Vec<FileHandle> = Vec::new();
        hs.push(FileHandle::new(out_path, rel_path, data));
        let r = Vinyl::new(hs);
        assert(r@.handles =~= seq![
            FileView {
                out_path: out_path@,
                rel_path: rel_path@,
                data: joined_data(self@.handles),
            },
        ]);
        r
    }

    /// The files and renamings of all vinyls, in order.
    pub fn flatten(vs: Vec<Vinyl>) -> (r: Vinyl)
        ensures
            r@.handles == joined_handles(vs@.map_values(|v: Vinyl| v@)),
            r@.revision_pairs == joined_pairs(vs@.map_values(|v: Vinyl| v@)),
    {
        let ghost views = vs@.map_values(|v: Vinyl| v@);
        let mut handles: Vec<FileHandle> = Vec::new();
        let mut pairs: Vec<(String, String)> = Vec::new();
        for i in 0..vs.len()
            invariant
                views == vs@.map_values(|v: Vinyl| v@),
                handle_views(handles@) == joined_handles(views.take(i as int)),
                pair_views(pairs@) == joined_pairs(views.take(i as int)),
        {
            let v = &vs[i];
            let ghost before_h = handle_views(handles@);
            let ghost before_p = pair_views(pairs@);
            for j in 0..v.handles.len()
                invariant
                    handle_views(handles@) == before_h + handle_views(v.handles@).take(j as int),
            {
                let h = v.handles[j].clone();
                proof {
                    lemma_handle_views_push(handles@, h);
                    assert(handle_views(v.handles@).take(j + 1) =~= handle_views(v.handles@).take(
                        j as int,
                    ).push(h@));
                }
                handles.push(h);
                assert(handle_views(handles@) =~= before_h + handle_views(v.handles@).take(
                    j + 1,
                ));
            }
            for j in 0..v.revision_pairs.len()
                invariant
                    pair_views(pairs@) == before_p + pair_views(v.revision_pairs@).take(j as int),
            {
                let p = (v.revision_pairs[j].0.clone(), v.revision_pairs[j].1.clone());
                proof {
                    lemma_pair_views_push(pairs@, p);
                    assert(pair_views(v.revision_pairs@).take(j + 1) =~= pair_views(
                        v.revision_pairs@,
                    ).take(j as int).push((p.0@, p.1@)));
                }
                pairs.push(p);
                assert(pair_views(pairs@) =~= before_p + pair_views(v.revision_pairs@).take(
                    j + 1,
                ));
            }
            proof {
                assert(handle_views(v.handles@).take(v.handles@.len() as int) =~= handle_views(
                    v.handles@,
                ));
                assert(pair_views(v.revision_pairs@).take(v.revision_pairs@.len() as int)
                    =~= pair_views(v.revision_pairs@));
                assert(views.take(i + 1).drop_last() =~= views.take(i as int));
                assert(views.take(i + 1).last() == v@);
            }
        }
        assert(views.take(vs@.len() as int) =~= views);
        Vinyl { handles, revision_pairs: pairs }
    }

    /// Renames every file to `<stem>-<crc32 of its bytes in hex>.<extension>` and
    /// records each renaming, old path then new, after the renamings already held.
    pub fn revisions(self) -> (r: Vinyl)
        requires
            forall|i: int| 0 <= i < self@.handles.len() ==> revisable(#[trigger] self@.handles[i]),
        ensures
            r@.handles.len() == self@.handles.len(),
            forall|i: int|
                0 <= i < self@.handles.len() ==> #[trigger] r@.handles[i] == (FileView {
                    out_path: self@.handles[i].out_path,
                    rel_path: revised_path(self@.handles[i]),
                    data: self@.handles[i].data,
                }),
            r@.revision_pairs == self@.revision_pairs + Seq::new(
                self@.handles.len(),
                |i: int| (self@.handles[i].rel_path, revised_path(self@.handles[i])),
            ),
    {
        let ghost old_view = self@;
        let n = self.handles.len();
        let mut handles: Vec<FileHandle> = Vec::new();
        let mut new_pairs: Vec<(String, String)> = Vec::new();
        for i in 0..n
            invariant
                n == self.handles@.len(),
                old_view == self@,
                forall|k: int| 0 <= k < n ==> revisable(#[trigger] self@.handles[k]),
                handles@.len() == i,
                forall|k: int|
                    0 <= k < i ==> #[trigger] handles@[k]@ == (FileView {
                        out_path: self@.handles[k].out_path,
                        rel_path: revised_path(self@.handles[k]),
                        data: self@.handles[k].data,
                    }),
                pair_views(new_pairs@) =~= Seq::new(
                    i as nat,
                    |k: int| (self@.handles[k].rel_path, revised_path(self@.handles[k])),
                ),
        {
            let h = &self.handles[i];
            assert(h@ == self@.handles[i as int]);
            assert(revisable(h@));
            let stem = match file_stem(h.rel_path.as_str()) {
                Some(s) => s,
                None => {
                    assert(false);
                    String::new()
                },
            };
            let ext = match extension(h.rel_path.as_str()) {
                Some(s) => s,
                None => {
                    assert(false);
                    String::new()
                },
            };
            let sum = checksum_ieee(h.data.as_slice());
            let hex = lower_hex(sum);
            let mut name = stem;
            name.append("-");
            name.append(hex.as_str());
            name.append(".");
            name.append(ext.as_str());
            proof {
                reveal_strlit("-");
                reveal_strlit(".");
                assert(name@ =~= revised_name(h@));
            }
            let new_path = with_file_name(h.rel_path.as_str(), name.as_str());
            let pair = (h.rel_path.clone(), new_path.clone());
            proof {
                lemma_pair_views_push(new_pairs@, pair);
            }
            new_pairs.push(pair);
            let data = h.data.clone();
            assert(data@ =~= h.data@);
            handles.push(FileHandle::new(h.out_path.clone(), new_path, data));
        }
        let mut revision_pairs = self.revision_pairs;
        let ghost old_pairs = revision_pairs@;
        let ghost added = new_pairs@;
        revision_pairs.append(&mut new_pairs);
        proof {
            assert(pair_views(revision_pairs@) =~= pair_views(old_pairs) + pair_views(added));
        }
        let r = Vinyl { handles, revision_pairs };
        assert(r@.handles =~= Seq::new(
            n as nat,
            |k: int|
                FileView {
                    out_path: old_view.handles[k].out_path,
                    rel_path: revised_path(old_view.handles[k]),
                    data: old_view.handles[k].data,
                },
        ));
        r
    }

    /// The writes that saving every file asks for, in order, up to the first file
    /// without data; and the path and error of that file, if there is one.
    #[verifier::spinoff_prover]
    pub fn save_all(&self) -> (r: (Vec<FileWrite>, Option<(String, VinylError)>))
        ensures
            saves_of(self@.handles, r.0@, r.1),
    {
        let mut writes: Vec<FileWrite> = Vec::new();
        let n = self.handles.len();
        let mut i: usize = 0;
        proof {
            lemma_save_prefix_len(self@.handles);
        }
        while i < n
            invariant
                n == self@.handles.len(),
                i <= n,
                i <= save_prefix_len(self@.handles) <= n,
                forall|k: int|
                    0 <= k < save_prefix_len(self@.handles) ==> #[trigger] self@.handles[k].data.len()
                        > 0,
                save_prefix_len(self@.handles) < n ==> self@.handles[save_prefix_len(
                    self@.handles,
                )].data.len() == 0,
                writes@.len() == i,
                forall|k: int|
                    0 <= k < i ==> #[trigger] writes@[k].path@ == spec_join(
                        self@.handles[k].out_path,
                        self@.handles[k].rel_path,
                    ) && writes@[k].data@ == self@.handles[k].data,
            decreases n - i,
        {
            let h = &self.handles[i];
            assert(h@ == self@.handles[i as int]);
            match h.save() {
                Ok(w) => {
                    writes.push(w);
                },
                Err(e) => {
                    proof {
                        assert(self@.handles[i as int].data.len() == 0);
                        if (i as int) < save_prefix_len(self@.handles) {
                            assert(self@.handles[i as int].data.len() > 0);
                        }
                    }
                    return (writes, Some((h.file_path(), e)));
                },
            }
            i = i + 1;
        }
        (writes, None)
    }

    /// The vinyl with `f` added as its last file.
    pub fn insert(self, f: FileHandle) -> (r: Vinyl)
        ensures
            r@.handles == self@.handles.push(f@),
            r@.revision_pairs == self@.revision_pairs,
    {
        let mut v = self;
        let ghost f_view = f@;
        v.handles.push(f);
        assert(handle_views(v.handles@) =~= self@.handles.push(f_view));
        v
    }

    /// The task that saves every file and then passes the vinyl on.
    pub fn saved(self) -> (r: TaskOutcome)
        ensures
            r.vinyl@ == self@,
            saves_of(self@.handles, r.writes@, r.failure),
    {
        let (writes, failure) = self.save_all();
        TaskOutcome { vinyl: self, writes, failure }
    }

    /// The task that passes the vinyl on without saving anything.
    pub fn unsaved(self) -> (r: TaskOutcome)
        ensures
            r.vinyl@ == self@,
            r.writes@.len() == 0,
            r.failure is None,
    {
        TaskOutcome { vinyl: self, writes: Vec::new(), failure: None }
    }
}

/// The list with runs of consecutive equal paths cut to their first element.
fn dedup(files: &Vec<String>) -> (r: Vec<String>)
    ensures
        string_views(r@) == dedup_paths(string_views(files@)),
{
    let mut r: Vec<String> = Vec::new();
    for i in 0..files.len()
        invariant
            string_views(r@) == dedup_paths(string_views(files@).take(i as int)),
    {
        proof {
            assert(string_views(files@).take(i + 1).drop_last() =~= string_views(files@).take(
                i as int,
            ));
        }
        let n = r.len();
        if n > 0 && path_eq(files[i].as_str(), r[n - 1].as_str()) {
        } else {
            r.push(files[i].clone());
            assert(string_views(r@) =~= string_views(r@).drop_last().push(files@[i as int]@));
        }
    }
    assert(string_views(files@).take(files@.len() as int) =~= string_views(files@));
    r
}

impl Default for VinylError {
    fn default() -> (r: VinylError)
        ensures
            r.msg@.len() == 0,
    {
        VinylError { msg: String::new() }
    }
}

impl Default for FileHandle {
    fn default() -> (r: FileHandle)
        ensures
            r@.out_path.len() == 0,
            r@.rel_path.len() == 0,
            r@.data.len() == 0,
    {
        FileHandle { out_path: String::new(), rel_path: String::new(), data: Vec::new() }
    }
}

impl Default for Vinyl {
    fn default() -> (r: Vinyl)
        ensures
            r@.handles.len() == 0,
            r@.revision_pairs.len() == 0,
    {
        Vinyl::new(Vec::new())
    }
}

/// Flattening a single vinyl gives that vinyl's files and renamings.
pub proof fn lemma_flatten_single(v: VinylView)
    ensures
        joined_handles(seq![v]) == v.handles,
        joined_pairs(seq![v]) == v.revision_pairs,
{
    assert(seq![v].drop_last() =~= Seq::<VinylView>::empty());
    assert(joined_handles(seq![v].drop_last()) == Seq::<FileView>::empty());
    assert(joined_pairs(seq![v].drop_last()) == Seq::<(Seq<char>, Seq<char>)>::empty());
    assert(seq![v].last() == v);
    assert(Seq::<FileView>::empty() + v.handles =~= v.handles);
    assert(Seq::<(Seq<char>, Seq<char>)>::empty() + v.revision_pairs =~= v.revision_pairs);
}

/// Flattening two lists one after the other is flattening each and joining the results:
/// flattening is associative.
pub proof fn lemma_flatten_append(a: Seq<VinylView>, b: Seq<VinylView>)
    ensures
        joined_handles(a + b) == joined_handles(a) + joined_handles(b),
        joined_pairs(a + b) == joined_pairs(a) + joined_pairs(b),
    decreases b.len(),
{
    if b.len() == 0 {
        assert(a + b =~= a);
        assert(joined_handles(a) + joined_handles(b) =~= joined_handles(a));
        assert(joined_pairs(a) + joined_pairs(b) =~= joined_pairs(a));
    } else {
        lemma_flatten_append(a, b.drop_last());
        assert((a + b).drop_last() =~= a + b.drop_last());
        assert(joined_handles(a) + joined_handles(b) =~= joined_handles(a) + joined_handles(
            b.drop_last(),
        ) + b.last().handles);
        assert(joined_pairs(a) + joined_pairs(b) =~= joined_pairs(a) + joined_pairs(b.drop_last())
            + b.last().revision_pairs);
    }
}

/// Joining the bytes of files that were already joined into one gives the same bytes:
/// concatenating a concatenation changes nothing but the file's place.
pub proof fn lemma_concat_idempotent(hs: Seq<FileView>, out_path: Seq<char>, rel_path: Seq<char>)
    ensures
        joined_data(seq![FileView { out_path, rel_path, data: joined_data(hs) }]) == joined_data(hs),
{
    let f = FileView { out_path, rel_path, data: joined_data(hs) };
    assert(seq![f].drop_last() =~= Seq::<FileView>::empty());
    assert(joined_data(seq![f].drop_last()) == Seq::<u8>::empty());
    assert(seq![f].last() == f);
    assert(Seq::<u8>::empty() + joined_data(hs) =~= joined_data(hs));
}

/// After cutting runs of equal paths, no path equals the one before it; and the first
/// path is kept.
pub proof fn lemma_dedup_no_repeats(s: Seq<Seq<char>>)
    ensures
        forall|i: int|
            0 < i < dedup_paths(s).len() ==> !paths_equal(
                #[trigger] dedup_paths(s)[i],
                dedup_paths(s)[i - 1],
            ),
        s.len() > 0 ==> dedup_paths(s).len() > 0 && dedup_paths(s)[0] == s[0],
        dedup_paths(s).len() <= s.len(),
    decreases s.len(),
{
    if s.len() > 0 {
        lemma_dedup_no_repeats(s.drop_last());
        let d = dedup_paths(s.drop_last());
        if s.len() > 1 {
            assert(s.drop_last()[0] == s[0]);
        }
        if !(d.len() > 0 && paths_equal(s.last(), d.last())) {
            assert forall|i: int|
                0 < i < dedup_paths(s).len() implies !paths_equal(
                #[trigger] dedup_paths(s)[i],
                dedup_paths(s)[i - 1],
            ) by {
                if i < d.len() {
                    assert(dedup_paths(s)[i] == d[i]);
                    assert(dedup_paths(s)[i - 1] == d[i - 1]);
                }
            }
        }
    }
}

/// A save of all files succeeds exactly when every file has data.
pub proof fn lemma_save_all_succeeds(hs: Seq<FileView>)
    ensures
        save_prefix_len(hs) == hs.len() <==> forall|i: int| 0 <= i < hs.len() ==> #[trigger] hs[i].data.len() > 0,
{
    lemma_save_prefix_len(hs);
}

/// `text` with each renaming applied in order: every occurrence of the old path
/// replaced by the new one.
pub open spec fn spec_apply_renamings(text: Seq<char>, pairs: Seq<(Seq<char>, Seq<char>)>) -> Seq<char>
    decreases pairs.len(),
{
    if pairs.len() == 0 {
        text
    } else {
        spec_replace(
            spec_apply_renamings(text, pairs.drop_last()),
            pairs.last().0,
            pairs.last().1,
        )
    }
}

/// The kinds of files whose text refers to other files by path: `html`, `js`, `css`.
pub open spec fn spec_refers_to_files(p: Seq<char>) -> bool {
    spec_extension(p) == Some(seq!['h', 't', 'm', 'l']) || spec_extension(p) == Some(seq!['j', 's'])
        || spec_extension(p) == Some(seq!['c', 's', 's'])
}

/// Whether the file at `path` is of a kind whose text refers to other files.
pub fn refers_to_files(path: &str) -> (r: bool)
    ensures
        r == spec_refers_to_files(path@),
{
    match extension(path) {
        None => false,
        Some(e) => {
            let html = String::from_str("html");
            let js = String::from_str("js");
            let css = String::from_str("css");
            proof {
                reveal_strlit("html");
                reveal_strlit("js");
                reveal_strlit("css");
                assert("html"@ =~= seq!['h', 't', 'm', 'l']);
                assert("js"@ =~= seq!['j', 's']);
                assert("css"@ =~= seq!['c', 's', 's']);
            }
            e == html || e == js || e == css
        },
    }
}

impl Vinyl {
    /// `text` with every renaming of this vinyl applied, in the order they were made.
    pub fn apply_renamings(&self, text: &String) -> (r: String)
        ensures
            r@ == spec_apply_renamings(text@, self@.revision_pairs),
    {
        let ghost ps = self@.revision_pairs;
        let mut r = text.clone();
        for i in 0..self.revision_pairs.len()
            invariant
                ps == pair_views(self.revision_pairs@),
                r@ == spec_apply_renamings(text@, ps.take(i as int)),
        {
            proof {
                assert(ps.take(i + 1).drop_last() =~= ps.take(i as int));
                assert(ps.take(i + 1).last() == (self.revision_pairs@[i as int].0@, self.revision_pairs@[i as int].1@));
            }
            let (pre, post) = (&self.revision_pairs[i].0, &self.revision_pairs[i].1);
            r = replace_all(r.as_str(), pre.as_str(), post.as_str());
        }
        assert(ps.take(ps.len() as int) =~= ps);
        r
    }
}

} // verus!

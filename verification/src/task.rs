//! Text files addressed by a single path, and sets of them; the earlier file model that
//! the script processor works with.

use vstd::prelude::*;

verus! {

broadcast use vstd::string::group_string_axioms;

/// A text file: its path and its contents.
pub struct FileHandle {
    pub file_path: String,
    pub data: String,
}

impl View for FileHandle {
    type V = (Seq<char>, Seq<char>);

    open spec fn view(&self) -> (Seq<char>, Seq<char>) {
        (self.file_path@, self.data@)
    }
}

impl FileHandle {
    pub fn new(path: String, data: String) -> (r: FileHandle)
        ensures
            r@ == (path@, data@),
    {
        FileHandle { file_path: path, data }
    }

    /// A copy of the file.
    pub fn clone(&self) -> (r: FileHandle)
        ensures
            r@ == self@,
    {
        FileHandle { file_path: self.file_path.clone(), data: self.data.clone() }
    }
}

/// A task: a name and the work it does.
pub struct ProcessTask<F> {
    pub name: String,
    pub fnc: F,
}

/// A set of text files, in order.
pub struct Vinyl(Vec<FileHandle>);

pub open spec fn text_views(hs: Seq<FileHandle>) -> Seq<(Seq<char>, Seq<char>)> {
    hs.map_values(|h: FileHandle| h@)
}

pub open spec fn opt_text(c: Option<String>) -> Option<Seq<char>> {
    match c {
        Some(s) => Some(s@),
        None => None,
    }
}

/// The contents of all files, one after the other.
pub open spec fn joined_text(hs: Seq<(Seq<char>, Seq<char>)>) -> Seq<char>
    decreases hs.len(),
{
    if hs.len() == 0 {
        Seq::empty()
    } else {
        joined_text(hs.drop_last()) + hs.last().1
    }
}

/// The files that could be read: each path with its contents, in order, leaving out
/// the paths whose contents are missing.
pub open spec fn loaded(paths: Seq<Seq<char>>, contents: Seq<Option<Seq<char>>>) -> Seq<(Seq<char>, Seq<char>)>
    decreases paths.len(),
{
    if paths.len() == 0 || contents.len() == 0 {
        Seq::empty()
    } else {
        let rest = loaded(paths.drop_last(), contents.drop_last());
        match contents.last() {
            Some(c) => rest.push((paths.last(), c)),
            None => rest,
        }
    }
}

impl View for Vinyl {
    type V = Seq<(Seq<char>, Seq<char>)>;

    closed spec fn view(&self) -> Seq<(Seq<char>, Seq<char>)> {
        text_views(self.0@)
    }
}

impl Vinyl {
    /// The files, in order.
    pub fn handles(&self) -> (r: &Vec<FileHandle>)
        ensures
            text_views(r@) == self@,
    {
        &self.0
    }

    /// The files of `files` that could be read, given what reading each gave
    /// (`contents`, in the same order; `None` where the read failed).
    pub fn load(files: Vec<String>, contents: Vec<Option<String>>) -> (r: Vinyl)
        requires
            files@.len() == contents@.len(),
        ensures
            r@ == loaded(
                files@.map_values(|s: String| s@),
                contents@.map_values(|c: Option<String>| opt_text(c)),
            ),
    {
        let ghost ps = files@.map_values(|s: String| s@);
        let ghost cs = contents@.map_values(|c: Option<String>| opt_text(c));
        let mut hs: Vec<FileHandle> = Vec::new();
        for i in 0..files.len()
            invariant
                files@.len() == contents@.len(),
                ps == files@.map_values(|s: String| s@),
                cs == contents@.map_values(|c: Option<String>| opt_text(c)),
                text_views(hs@) == loaded(ps.take(i as int), cs.take(i as int)),
        {
            proof {
                assert(ps.take(i + 1).drop_last() =~= ps.take(i as int));
                assert(cs.take(i + 1).drop_last() =~= cs.take(i as int));
                assert(cs.take(i + 1).last() == cs[i as int]);
            }
            match &contents[i] {
                Some(c) => {
                    let h = FileHandle::new(files[i].clone(), c.clone());
                    let ghost before = hs@;
                    hs.push(h);
                    assert(text_views(hs@) =~= text_views(before).push(h@));
                },
                None => {},
            }
        }
        assert(ps.take(files@.len() as int) =~= ps);
        assert(cs.take(files@.len() as int) =~= cs);
        Vinyl(hs)
    }

    /// One file at `path` holding the contents of all files, in order.
    pub fn concat(&self, path: String) -> (r: Vinyl)
        ensures
            r@ == seq![(path@, joined_text(self@))],
    {
        let mut data = String::new();
        for i in 0..self.0.len()
            invariant
                data@ == joined_text(text_views(self.0@).take(i as int)),
        {
            proof {
                assert(text_views(self.0@).take(i + 1).drop_last() =~= text_views(self.0@).take(
                    i as int,
                ));
            }
            data.append(self.0[i].data.as_str());
        }
        assert(text_views(self.0@).take(self.0@.len() as int) =~= text_views(self.0@));
        let mut hs: Vec<FileHandle> = Vec::new();
        hs.push(FileHandle::new(path, data));
        let r = Vinyl(hs);
        assert(r@ =~= seq![(path@, joined_text(self@))]);
        r
    }

    /// The set itself, once its files have been saved.
    pub fn save_all(&self) -> (r: Vinyl)
        ensures
            r@ == self@,
    {
        let mut hs: Vec<FileHandle> = Vec::new();
        for i in 0..self.0.len()
            invariant
                text_views(hs@) == text_views(self.0@).take(i as int),
        {
            let h = self.0[i].clone();
            let ghost before = hs@;
            hs.push(h);
            assert(text_views(hs@) =~= text_views(before).push(h@));
            assert(text_views(self.0@).take(i + 1) =~= text_views(self.0@).take(i as int).push(h@));
        }
        assert(text_views(self.0@).take(self.0@.len() as int) =~= text_views(self.0@));
        Vinyl(hs)
    }
}

} // verus!

//! Paths of the file system as plain values.

use vstd::prelude::*;

use crate::text::{copy_texts, texts};
use crate::tree::TreePath;

verus! {

/// A path of the file system: its text as it is displayed and, where a part of the
/// path is no Unicode text and the displayed text holds a replacement for it, the bytes
/// of the path as the platform has them.
#[derive(Debug, PartialEq, Eq)]
pub struct FsPath {
    pub text: String,
    pub raw: Option<Vec<u8>>,
}

/// What a path of the file system is.
#[verifier::ext_equal]
pub struct FsPathView {
    pub text: Seq<char>,
    pub raw: Option<Seq<u8>>,
}

/// Bytes that may be missing.
pub open spec fn raw_view(raw: Option<Vec<u8>>) -> Option<Seq<u8>> {
    match raw {
        Some(bytes) => Some(bytes@),
        None => None,
    }
}

/// Whether two lists of bytes are the same.
fn same_bytes(a: &Vec<u8>, b: &Vec<u8>) -> (r: bool)
    ensures
        r == (a@ == b@),
{
    if a.len() != b.len() {
        return false;
    }
    let mut i: usize = 0;
    while i < a.len()
        invariant
            i <= a@.len() == b@.len(),
            forall|j: int| 0 <= j < i ==> a@[j] == b@[j],
        decreases a@.len() - i,
    {
        if a[i] != b[i] {
            return false;
        }
        i = i + 1;
    }
    assert(a@ =~= b@);
    true
}

impl FsPath {
    /// What this path is.
    pub open spec fn view(&self) -> FsPathView {
        FsPathView { text: self.text@, raw: raw_view(self.raw) }
    }

    /// The path that a text stands for.
    pub fn from_text(text: &str) -> (r: FsPath)
        ensures
            r@ == unicode_path(text@),
    {
        FsPath { text: text.to_owned(), raw: None }
    }

    /// The same path once more.
    pub fn copy(&self) -> (r: FsPath)
        ensures
            r@ == self@,
    {
        let raw = match &self.raw {
            Some(bytes) => {
                let copied = bytes.clone();
                assert(copied@ =~= bytes@);
                Some(copied)
            },
            None => None,
        };
        FsPath { text: self.text.clone(), raw }
    }

    /// Whether two paths are spelled the same.
    pub fn same(&self, other: &FsPath) -> (r: bool)
        ensures
            r == (self@ == other@),
    {
        if self.text != other.text {
            return false;
        }
        match (&self.raw, &other.raw) {
            (Some(mine), Some(theirs)) => same_bytes(mine, theirs),
            (None, None) => true,
            _ => false,
        }
    }

    /// The text of this path, where it is Unicode.
    pub fn to_text(&self) -> (r: Option<String>)
        ensures
            match r {
                Some(text) => path_text(self@) == Some(text@),
                None => path_text(self@) is None,
            },
    {
        if self.raw.is_none() {
            Some(self.text.clone())
        } else {
            None
        }
    }
}

/// The path that a text stands for.
pub open spec fn unicode_path(text: Seq<char>) -> FsPathView {
    FsPathView { text, raw: None }
}

/// The text of a path, where it is Unicode.
pub open spec fn path_text(path: FsPathView) -> Option<Seq<char>> {
    if path.raw is None {
        Some(path.text)
    } else {
        None
    }
}

/// A path made by joining names to a path, one after the other.
#[derive(Debug, PartialEq, Eq)]
pub struct JoinedPath {
    pub base: FsPath,
    pub names: Vec<String>,
}

/// What a joined path is made of.
#[verifier::ext_equal]
pub struct JoinedPathView {
    pub base: FsPathView,
    pub names: Seq<Seq<char>>,
}

impl JoinedPath {
    /// What this path is made of.
    pub open spec fn view(&self) -> JoinedPathView {
        JoinedPathView { base: self.base@, names: texts(self.names@) }
    }

    /// A path with nothing joined to it.
    pub fn bare(base: FsPath) -> (r: JoinedPath)
        ensures
            r@ == joined(base@, Seq::empty()),
    {
        let path = JoinedPath { base, names: Vec::new() };
        assert(texts(path.names@) =~= Seq::empty());
        path
    }

    /// This path with one more name joined to it.
    pub fn join(self, name: &str) -> (r: JoinedPath)
        ensures
            r@ == joined(self@.base, self@.names.push(name@)),
    {
        let mut names = self.names;
        let ghost before = texts(names@);
        names.push(name.to_owned());
        assert(texts(names@) =~= before.push(name@));
        JoinedPath { base: self.base, names }
    }
}

/// A place in a tree below a root.
pub fn located(root: &FsPath, path: &TreePath) -> (r: JoinedPath)
    ensures
        r@ == joined(root@, path@),
{
    JoinedPath { base: root.copy(), names: copy_texts(&path.components) }
}

/// A path with names joined to it.
pub open spec fn joined(base: FsPathView, names: Seq<Seq<char>>) -> JoinedPathView {
    JoinedPathView { base, names }
}

/// A letter in its small form, where it is a letter of the Latin alphabet.
pub open spec fn small(c: char) -> char {
    if 'A' <= c && c <= 'Z' {
        (c as int + 32) as char
    } else {
        c
    }
}

/// What two spellings of one path have in common: their characters without the
/// separators and the dots, capital or small.
pub open spec fn letters(text: Seq<char>) -> Seq<char>
    decreases text.len(),
{
    if text.len() == 0 {
        Seq::empty()
    } else {
        let before = letters(text.drop_last());
        let last = text.last();
        if last == '/' || last == '\\' || last == '.' {
            before
        } else {
            before.push(small(last))
        }
    }
}

/// Whether a text begins as an absolute path does on some platform: with a root, or
/// with the name of a drive.
pub open spec fn begins_absolute(text: Seq<char>) -> bool {
    text.len() > 0 && (text[0] == '/' || text[0] == '\\' || (text.len() > 1 && text[1] == ':'))
}

/// `std::path::Path::is_absolute`. What is absolute depends on the platform; trusted is
/// only that an absolute path begins with the root or, before it, with a prefix such as
/// a drive.
#[verifier::external_body]
pub(crate) fn path_is_absolute(text: &str) -> (r: bool)
    ensures
        r ==> begins_absolute(text@),
{
    std::path::Path::new(text).is_absolute()
}

/// Equality of `std::path::Path`, component by component. How a text falls into
/// components depends on the platform; trusted is only that one text is the same
/// path as itself, and that two texts for one path differ at most in separators, in
/// dots and in the case of letters such as that of a drive.
#[verifier::external_body]
pub(crate) fn same_path(a: &str, b: &str) -> (r: bool)
    ensures
        a@ == b@ ==> r,
        r ==> letters(a@) == letters(b@),
{
    std::path::Path::new(a) == std::path::Path::new(b)
}

/// Whether `same` can be the platform's word on whether two paths are the same. Two texts
/// for one path have the same letters, and equal texts are one path; a path that is no
/// Unicode text is the same as itself alone.
pub open spec fn compared(a: FsPathView, b: FsPathView, same: bool) -> bool {
    if a.raw is None && b.raw is None {
        &&& a.text == b.text ==> same
        &&& same ==> letters(a.text) == letters(b.text)
    } else {
        same == (a == b)
    }
}

impl FsPath {
    /// Whether two paths are the same on this platform.
    pub fn is_same_path(&self, other: &FsPath) -> (r: bool)
        ensures
            compared(self@, other@, r),
    {
        if self.raw.is_none() && other.raw.is_none() {
            same_path(self.text.as_str(), other.text.as_str())
        } else {
            self.same(other)
        }
    }
}

} // verus!

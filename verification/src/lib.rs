//! Type registry, path handling and code generation helpers for bindings
//! that serialize to and deserialize from the postcard byte format.

pub mod code_gen;
pub mod order;
pub mod path;
pub mod registry;
pub mod text;
pub mod tree;
pub mod type_info;
pub mod utils;

use vstd::prelude::*;

verus! {

/// Pointer width of a target architecture.
pub enum ArchPointerLen {
    U32,
    U64,
}

impl ArchPointerLen {
    /// Number of bytes of a pointer of this width.
    pub fn into_bytes(self) -> (bytes: usize)
        ensures
            bytes == match self {
                ArchPointerLen::U32 => 4usize,
                ArchPointerLen::U64 => 8usize,
            },
    {
        match self {
            ArchPointerLen::U32 => 4,
            ArchPointerLen::U64 => 8,
        }
    }
}

/// A generated file: what it holds, by the kind of its content, and its
/// text.
#[derive(Debug)]
pub struct ExportFile {
    pub content_type: String,
    pub content: String,
}

/// The model of a file: its kind and its text.
pub open spec fn file_model(f: ExportFile) -> (Seq<char>, Seq<char>) {
    (f.content_type@, f.content@)
}

/// The files that bindings generation produces.
#[derive(Debug)]
pub struct Exports {
    pub files: Vec<ExportFile>,
}

/// The position of the first of the files whose kind is `content_type`.
pub open spec fn first_of(files: Seq<(Seq<char>, Seq<char>)>, content_type: Seq<char>) -> Option<int>
    decreases files.len(),
{
    if files.len() == 0 {
        None
    } else if files[0].0 == content_type {
        Some(0)
    } else {
        match first_of(files.drop_first(), content_type) {
            Some(k) => Some(k + 1),
            None => None,
        }
    }
}

/// The position of the first file of a kind holds a file of that kind.
pub proof fn lemma_first_of(files: Seq<(Seq<char>, Seq<char>)>, content_type: Seq<char>)
    ensures
        first_of(files, content_type) matches Some(k) ==> 0 <= k < files.len() && files[k].0
            == content_type,
    decreases files.len(),
{
    if files.len() > 0 && files[0].0 != content_type {
        lemma_first_of(files.drop_first(), content_type);
    }
}

impl Exports {
    /// The files, each by its kind and text.
    pub open spec fn models(&self) -> Seq<(Seq<char>, Seq<char>)> {
        self.files@.map_values(|f: ExportFile| file_model(f))
    }

    /// The text of the first file of the kind `content_type`, if there is one.
    pub fn file(&self, content_type: &str) -> (r: Option<&String>)
        ensures
            match first_of(self.models(), content_type@) {
                Some(k) => r matches Some(t) && t@ == self.models()[k].1,
                None => r is None,
            },
    {
        proof {
            lemma_first_of(self.models(), content_type@);
        }
        match position_of(&self.files, content_type) {
            Some(k) => {
                assert(self.models()[k as int] == file_model(self.files@[k as int]));
                Some(&self.files[k].content)
            },
            None => None,
        }
    }

    /// Takes the first file of the kind `content_type` out, if there is one,
    /// and gives its text back.
    pub fn pop_file(&mut self, content_type: &str) -> (r: Option<String>)
        ensures
            match first_of(old(self).models(), content_type@) {
                Some(k) => r matches Some(t) && t@ == old(self).models()[k].1 && final(self).models()
                    == old(self).models().remove(k),
                None => r is None && final(self).models() == old(self).models(),
            },
    {
        proof {
            lemma_first_of(self.models(), content_type@);
        }
        match position_of(&self.files, content_type) {
            Some(k) => {
                let f = self.files.remove(k);
                assert(self.models() =~= old(self).models().remove(k as int));
                Some(f.content)
            },
            None => None,
        }
    }
}

/// The position of the first of the files whose kind is `content_type`.
fn position_of(files: &Vec<ExportFile>, content_type: &str) -> (r: Option<usize>)
    ensures
        match r {
            Some(k) => first_of(files@.map_values(|f: ExportFile| file_model(f)), content_type@)
                == Some(k as int),
            None => first_of(files@.map_values(|f: ExportFile| file_model(f)), content_type@) is None,
        },
{
    let ghost m = files@.map_values(|f: ExportFile| file_model(f));
    let n = files.len();
    let mut i: usize = 0;
    assert(m.skip(0) =~= m);
    while i < n
        invariant
            n == files@.len(),
            m == files@.map_values(|f: ExportFile| file_model(f)),
            i <= n,
            first_of(m, content_type@) == (match first_of(m.skip(i as int), content_type@) {
                Some(k) => Some(k + i),
                None => None::<int>,
            }),
        decreases n - i,
    {
        assert(m.skip(i as int)[0] == m[i as int]);
        if crate::code_gen::python::imports::str_eq(files[i].content_type.as_str(), content_type) {
            return Some(i);
        }
        assert(m.skip(i as int).drop_first() =~= m.skip(i + 1));
        i = i + 1;
    }
    assert(m.skip(n as int).len() == 0);
    None
}

} // verus!

//! Paths made of parts.
//!
//! A [`PathBuf`] holds its parts one by one and can be changed; a [`Path`]
//! holds the parts joined into one string together with the joiner that
//! splits it into parts again.
use vstd::prelude::*;
use vstd::string::*;

use crate::text::{
    join_seq, join_strings, lemma_join_split, lemma_split_join, shares_char, split_seq, split_str,
    views,
};

verus! {

/// A path buffer that can be used to build paths part by part.
#[derive(Debug, Clone, PartialEq, Eq, Hash, PartialOrd, Ord)]
pub struct PathBuf {
    parts: Vec<String>,
}

impl View for PathBuf {
    type V = Seq<Seq<char>>;

    /// The parts of the path, in order.
    closed spec fn view(&self) -> Seq<Seq<char>> {
        views(self.parts@)
    }
}

/// The abstract value of a [`Path`]: the joined path, if any, and the
/// joiner.
pub type PathModel = (Option<Seq<char>>, Seq<char>);

/// The path that [`PathBuf::into_path`] makes of the parts `parts`.
pub open spec fn spec_into_path(parts: Seq<Seq<char>>, joiner: Seq<char>) -> PathModel {
    (Some(join_seq(parts, joiner)), joiner)
}

/// The parts that [`Path::into_buf`] and [`Path::parts`] give for a path.
pub open spec fn spec_path_parts(p: PathModel) -> Seq<Seq<char>> {
    match p.0 {
        Some(full) => split_seq(full, p.1),
        None => Seq::<Seq<char>>::empty(),
    }
}

/// The string that [`Path::to_string`] gives for a path.
pub open spec fn spec_path_string(p: PathModel) -> Seq<char> {
    match p.0 {
        Some(full) => full,
        None => Seq::<char>::empty(),
    }
}

impl PathBuf {
    /// Creates an empty path buffer.
    pub fn new() -> (r: Self)
        ensures
            r@ == Seq::<Seq<char>>::empty(),
    {
        let r = PathBuf { parts: Vec::new() };
        assert(r@ =~= Seq::<Seq<char>>::empty());
        r
    }

    /// Creates a path buffer from its parts.
    pub fn from_parts(parts: Vec<String>) -> (r: Self)
        ensures
            r@ == views(parts@),
    {
        PathBuf { parts }
    }

    /// Appends a part and gives the buffer back, so that calls can be
    /// chained.
    pub fn join(self, joiner: &str) -> (r: Self)
        ensures
            r@ == self@.push(joiner@),
    {
        let mut s = self;
        s.push(joiner);
        s
    }

    /// Appends a part at the end.
    pub fn push(&mut self, part: &str)
        ensures
            final(self)@ == old(self)@.push(part@),
    {
        let p = part.to_owned();
        self.parts.push(p);
        assert(self@ =~= old(self)@.push(part@));
    }

    /// Inserts a part at the front.
    pub fn push_front(&mut self, part: &str)
        ensures
            final(self)@ == seq![part@] + old(self)@,
    {
        let p = part.to_owned();
        self.parts.insert(0, p);
        assert(self@ =~= seq![part@] + old(self)@);
    }

    /// Removes the first part, if there is one.
    pub fn pop_front(&mut self)
        ensures
            old(self)@.len() == 0 ==> final(self)@ == old(self)@,
            old(self)@.len() > 0 ==> final(self)@ == old(self)@.drop_first(),
    {
        if self.parts.len() != 0 {
            let _ = self.parts.remove(0);
            assert(self@ =~= old(self)@.drop_first());
        }
    }

    /// The parts of the path, in order.
    pub fn parts(&self) -> (r: &[String])
        ensures
            views(r@) == self@,
    {
        self.parts.as_slice()
    }

    /// Whether the path has no part.
    pub fn is_empty(&self) -> (r: bool)
        ensures
            r == (self@.len() == 0),
    {
        self.parts.len() == 0
    }

    /// Joins the parts into a [`Path`] with the given joiner.
    pub fn into_path(self, joiner: &str) -> (r: Path)
        ensures
            r@ == spec_into_path(self@, joiner@),
    {
        let full = join_strings(&self.parts, joiner);
        Path { path: Some(full), joiner: joiner.to_owned() }
    }

    /// Flattens the path to the root by removing all parts.
    pub fn flatten(&mut self)
        ensures
            final(self)@ == Seq::<Seq<char>>::empty(),
    {
        self.parts.clear();
        assert(self@ =~= Seq::<Seq<char>>::empty());
    }

    /// The same path, owning all its parts.
    pub fn into_owned(self) -> (r: PathBuf)
        ensures
            r@ == self@,
    {
        self
    }

    /// A copy of the path buffer.
    pub fn duplicate(&self) -> (r: PathBuf)
        ensures
            r@ == self@,
    {
        let mut parts: Vec<String> = Vec::new();
        let mut i: usize = 0;
        while i < self.parts.len()
            invariant
                i <= self.parts@.len(),
                views(parts@) == views(self.parts@).take(i as int),
            decreases self.parts@.len() - i,
        {
            let ghost old_parts = parts@;
            let c = self.parts[i].clone();
            parts.push(c);
            assert(views(parts@) =~= views(old_parts).push(c@));
            assert(views(parts@) =~= views(self.parts@).take(i + 1));
            i = i + 1;
        }
        assert(views(self.parts@).take(i as int) =~= views(self.parts@));
        PathBuf { parts }
    }
}

/// A path joined into one string, together with the joiner that splits it
/// into parts.
#[derive(Debug, Clone, PartialEq, Eq)]
pub struct Path {
    path: Option<String>,
    joiner: String,
}

impl Default for PathBuf {
    /// An empty path buffer, as [`PathBuf::new`] makes it.
    fn default() -> (r: Self)
        ensures
            r@ == Seq::<Seq<char>>::empty(),
    {
        PathBuf::new()
    }
}

impl View for Path {
    type V = PathModel;

    closed spec fn view(&self) -> PathModel {
        (
            match self.path {
                Some(p) => Some(p@),
                None => None,
            },
            self.joiner@,
        )
    }
}

impl Path {
    /// Creates a path from the joined path and its joiner.
    pub fn new(path: &str, joiner: &str) -> (r: Self)
        ensures
            r@ == (Some(path@), joiner@),
    {
        Path { path: Some(path.to_owned()), joiner: joiner.to_owned() }
    }

    /// The parts of the path, split at the joiner; none for a flattened
    /// path.
    pub fn parts(&self) -> (r: Vec<String>)
        ensures
            views(r@) == spec_path_parts(self@),
    {
        match &self.path {
            Some(p) => split_str(p.as_str(), self.joiner.as_str()),
            None => {
                let r: Vec<String> = Vec::new();
                assert(views(r@) =~= Seq::<Seq<char>>::empty());
                r
            },
        }
    }

    /// Flattens the path to the root by removing all parts.
    pub fn flatten(&mut self)
        ensures
            final(self)@ == (None::<Seq<char>>, old(self)@.1),
    {
        self.path = None;
    }

    /// Splits the path into the parts of a [`PathBuf`].
    pub fn into_buf(self) -> (r: PathBuf)
        ensures
            r@ == spec_path_parts(self@),
    {
        let parts = self.parts();
        PathBuf { parts }
    }

    /// Whether the path is flattened or the empty string.
    pub fn is_empty(&self) -> (r: bool)
        ensures
            r == (spec_path_string(self@).len() == 0),
    {
        match &self.path {
            Some(p) => p.as_str().unicode_len() == 0,
            None => true,
        }
    }

    /// The same path, owning its strings.
    pub fn into_owned(self) -> (r: Path)
        ensures
            r@ == self@,
    {
        self
    }

    /// The joined path; the empty string for a flattened path.
    pub fn to_string(&self) -> (r: String)
        ensures
            r@ == spec_path_string(self@),
    {
        match &self.path {
            Some(p) => p.clone(),
            None => String::new(),
        }
    }

    /// A copy of the path.
    pub fn duplicate(&self) -> (r: Path)
        ensures
            r@ == self@,
    {
        let path = match &self.path {
            Some(p) => Some(p.clone()),
            None => None,
        };
        Path { path, joiner: self.joiner.clone() }
    }
}

impl From<Path> for String {
    /// The joined path, as [`Path::to_string`] gives it.
    fn from(path: Path) -> (r: String)
        ensures
            r@ == spec_path_string(path@),
    {
        path.to_string()
    }
}

impl vstd::std_specs::convert::FromSpecImpl<Path> for String {
    open spec fn obeys_from_spec() -> bool {
        false
    }

    open spec fn from_spec(path: Path) -> String {
        choose|r: String| r@ == spec_path_string(path@)
    }
}

/// Joining the parts of a path buffer into a path and splitting that path
/// again gives the same parts back, when there is at least one part, the
/// joiner is not empty and no part holds a character of the joiner.
pub proof fn law_into_path_into_buf(parts: Seq<Seq<char>>, joiner: Seq<char>)
    requires
        parts.len() >= 1,
        joiner.len() > 0,
        forall|k: int| 0 <= k < parts.len() ==> !shares_char(#[trigger] parts[k], joiner),
    ensures
        spec_path_parts(spec_into_path(parts, joiner)) == parts,
{
    lemma_split_join(parts, joiner);
}

/// Splitting a path into its parts and joining them with the same joiner
/// gives the same path back.
pub proof fn law_into_buf_into_path(p: PathModel)
    requires
        p.0 is Some,
    ensures
        spec_into_path(spec_path_parts(p), p.1) == p,
{
    lemma_join_split(p.0->0, p.1);
}

/// Pushing a part to the front and popping the front part again leaves the
/// path buffer as it was.
pub proof fn law_push_front_pop_front(parts: Seq<Seq<char>>, part: Seq<char>)
    ensures
        (seq![part] + parts).drop_first() == parts,
{
    assert((seq![part] + parts).drop_first() =~= parts);
}

} // verus!

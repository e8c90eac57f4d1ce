//! Paths to values in generated code, such as `v.field[0]`.
use vstd::prelude::*;
use vstd::string::*;

use crate::text::{join_seq, join_strings, views};

verus! {

/// The decimal digit `d`.
pub open spec fn digit_char(d: nat) -> char {
    (48 + d) as char
}

/// The decimal representation of `n`, without leading zeros.
pub open spec fn decimal(n: nat) -> Seq<char>
    decreases n,
{
    if n < 10 {
        seq![digit_char(n)]
    } else {
        decimal(n / 10).push(digit_char(n % 10))
    }
}

/// A decimal of a number of ten or more has at least two digits.
proof fn lemma_decimal_len(n: nat)
    ensures
        decimal(n).len() >= 1,
        n >= 10 ==> decimal(n).len() >= 2,
    decreases n,
{
    if n >= 10 {
        lemma_decimal_len(n / 10);
    }
}

/// Different numbers have different decimals.
pub proof fn lemma_decimal_injective(a: nat, b: nat)
    requires
        decimal(a) == decimal(b),
    ensures
        a == b,
    decreases a,
{
    lemma_decimal_len(a);
    lemma_decimal_len(b);
    if a < 10 && b < 10 {
        assert(decimal(a)[0] == digit_char(a));
        assert(decimal(b)[0] == digit_char(b));
    } else if a >= 10 && b >= 10 {
        let da = decimal(a / 10);
        let db = decimal(b / 10);
        assert(decimal(a) == da.push(digit_char(a % 10)));
        assert(decimal(b) == db.push(digit_char(b % 10)));
        assert(decimal(a).last() == digit_char(a % 10));
        assert(decimal(b).last() == digit_char(b % 10));
        assert(da =~= decimal(a).drop_last());
        assert(db =~= decimal(b).drop_last());
        lemma_decimal_injective(a / 10, b / 10);
    }
}

/// The decimal representation of `n`, as `format!("{}", n)` writes it.
pub fn decimal_string(n: usize) -> (r: String)
    ensures
        r@ == decimal(n as nat),
    decreases n,
{
    let digits = "0123456789";
    proof {
        reveal_strlit("0123456789");
    }
    let d = n % 10;
    let digit = digits.substring_char(d, d + 1);
    assert(digit@ =~= seq![digit_char(d as nat)]);
    if n < 10 {
        digit.to_owned()
    } else {
        let mut r = decimal_string(n / 10);
        r.append(digit);
        r
    }
}

/// One step of a path into a value: an index or a field.
pub enum VariableAccess {
    Indexed(usize),
    Field(String),
}

/// The text of a step: the index in decimal or the field's name.
pub open spec fn access_text(a: VariableAccess) -> Seq<char> {
    match a {
        VariableAccess::Indexed(i) => decimal(i as nat),
        VariableAccess::Field(f) => f@,
    }
}

/// The code of a step: `[index]` or `.field`.
pub open spec fn access_code(a: VariableAccess) -> Seq<char> {
    match a {
        VariableAccess::Indexed(i) => "["@ + decimal(i as nat) + "]"@,
        VariableAccess::Field(f) => "."@ + f@,
    }
}

impl VariableAccess {
    /// The text of the step.
    pub fn into_string(self) -> (r: String)
        ensures
            r@ == access_text(self),
    {
        match self {
            VariableAccess::Indexed(i) => decimal_string(i),
            VariableAccess::Field(f) => f,
        }
    }

    /// The code of the step.
    pub fn to_code(&self) -> (r: String)
        ensures
            r@ == access_code(*self),
    {
        match self {
            VariableAccess::Indexed(i) => {
                let mut r = "[".to_owned();
                r.append(decimal_string(*i).as_str());
                r.append("]");
                r
            },
            VariableAccess::Field(f) => {
                let mut r = ".".to_owned();
                r.append(f.as_str());
                r
            },
        }
    }

    /// A copy of the step.
    pub fn duplicate(&self) -> (r: VariableAccess)
        ensures
            r == *self,
    {
        match self {
            VariableAccess::Indexed(i) => VariableAccess::Indexed(*i),
            VariableAccess::Field(f) => VariableAccess::Field(f.clone()),
        }
    }
}

/// A path into a value: a variable followed by steps.
pub struct VariablePath {
    pub(crate) parts: Vec<VariableAccess>,
    pub(crate) start_variable: String,
}

/// The code of a path: the variable followed by the code of each step.
pub open spec fn path_code(start: Seq<char>, parts: Seq<VariableAccess>) -> Seq<char>
    decreases parts.len(),
{
    if parts.len() == 0 {
        start
    } else {
        path_code(start, parts.drop_last()) + access_code(parts.last())
    }
}

impl VariablePath {
    /// The variable the path starts at.
    pub closed spec fn start(&self) -> Seq<char> {
        self.start_variable@
    }

    /// The steps of the path.
    pub closed spec fn steps(&self) -> Seq<VariableAccess> {
        self.parts@
    }

    /// A path of the variable alone.
    pub fn new(start_variable: String) -> (r: Self)
        ensures
            r.start() == start_variable@,
            r.steps() == Seq::<VariableAccess>::empty(),
    {
        VariablePath { start_variable, parts: Vec::new() }
    }

    /// The path of the value `v`, the object that generated functions take.
    pub fn default() -> (r: Self)
        ensures
            r.start() == "v"@,
            r.steps() == Seq::<VariableAccess>::empty(),
    {
        Self::new("v".to_owned())
    }

    /// Appends a step.
    pub fn push(&mut self, part: VariableAccess)
        ensures
            final(self).start() == old(self).start(),
            final(self).steps() == old(self).steps().push(part),
    {
        self.parts.push(part)
    }

    /// Appends a step and gives the path back.
    pub fn modify_push(self, part: VariableAccess) -> (r: Self)
        ensures
            r.start() == self.start(),
            r.steps() == self.steps().push(part),
    {
        let mut s = self;
        s.push(part);
        s
    }

    /// Removes the last step and gives it back, if there is one.
    pub fn pop(&mut self) -> (r: Option<VariableAccess>)
        ensures
            final(self).start() == old(self).start(),
            old(self).steps().len() == 0 ==> r is None && final(self).steps() == old(self).steps(),
            old(self).steps().len() > 0 ==> r == Some(old(self).steps().last())
                && final(self).steps() == old(self).steps().drop_last(),
    {
        self.parts.pop()
    }

    /// Removes the last step, giving back the path and the step.
    pub fn modify_pop(self) -> (r: (Self, Option<VariableAccess>))
        ensures
            r.0.start() == self.start(),
            self.steps().len() == 0 ==> r.1 is None && r.0.steps() == self.steps(),
            self.steps().len() > 0 ==> r.1 == Some(self.steps().last()) && r.0.steps()
                == self.steps().drop_last(),
    {
        let mut s = self;
        let popped = s.pop();
        (s, popped)
    }

    /// The variable, `joined_by`, and the texts of the steps joined by
    /// `joined_by`.
    pub fn into_string(self, joined_by: &str) -> (r: String)
        ensures
            r@ == self.start() + joined_by@ + join_seq(self.steps().map_values(|a| access_text(a)), joined_by@),
    {
        let mut texts: Vec<String> = Vec::new();
        let mut i: usize = 0;
        let n = self.parts.len();
        let ghost steps = self.parts@;
        let mut parts = self.parts;
        while i < n
            invariant
                n == steps.len(),
                parts@ == steps,
                i <= n,
                views(texts@) == steps.take(i as int).map_values(|a| access_text(a)),
            decreases n - i,
        {
            let t = parts[i].duplicate().into_string();
            let ghost old_texts = texts@;
            texts.push(t);
            assert(views(texts@) =~= views(old_texts).push(t@));
            assert(steps.take(i + 1) =~= steps.take(i as int).push(steps[i as int]));
            i = i + 1;
            assert(views(texts@) =~= steps.take(i as int).map_values(|a| access_text(a)));
        }
        assert(steps.take(n as int) =~= steps);
        let mut r = self.start_variable;
        r.append(joined_by);
        r.append(join_strings(&texts, joined_by).as_str());
        r
    }

    /// The code of the path, such as `v.field[0]`.
    pub fn to_code(&self) -> (r: String)
        ensures
            r@ == path_code(self.start(), self.steps()),
    {
        let mut r = self.start_variable.clone();
        let mut i: usize = 0;
        while i < self.parts.len()
            invariant
                i <= self.parts@.len(),
                r@ == path_code(self.start_variable@, self.parts@.take(i as int)),
            decreases self.parts@.len() - i,
        {
            r.append(self.parts[i].to_code().as_str());
            proof {
                assert(self.parts@.take(i + 1).drop_last() =~= self.parts@.take(i as int));
            }
            i = i + 1;
        }
        assert(self.parts@.take(self.parts@.len() as int) =~= self.parts@);
        r
    }

    /// A copy of the path.
    pub fn duplicate(&self) -> (r: VariablePath)
        ensures
            r.start() == self.start(),
            r.steps() == self.steps(),
    {
        let mut parts: Vec<VariableAccess> = Vec::new();
        let mut i: usize = 0;
        while i < self.parts.len()
            invariant
                i <= self.parts@.len(),
                parts@ == self.parts@.take(i as int),
            decreases self.parts@.len() - i,
        {
            parts.push(self.parts[i].duplicate());
            i = i + 1;
            assert(parts@ =~= self.parts@.take(i as int));
        }
        assert(self.parts@.take(self.parts@.len() as int) =~= self.parts@);
        VariablePath { parts, start_variable: self.start_variable.clone() }
    }
}

/// Popping a path right after pushing a step onto it gives the step back
/// and leaves the path as it was.
pub proof fn law_push_then_pop(steps: Seq<VariableAccess>, step: VariableAccess)
    ensures
        steps.push(step).len() > 0,
        steps.push(step).last() == step,
        steps.push(step).drop_last() == steps,
{
    assert(steps.push(step).drop_last() =~= steps);
}

} // verus!

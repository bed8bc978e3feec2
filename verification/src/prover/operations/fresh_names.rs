//! Fresh names for variables that two clauses have in common.
//!
//! A fresh name is made of a base, an underscore and a number in decimal.
//! The base is the old name without a trailing underscore and digits, so
//! that a variable renamed twice does not grow a second suffix.

use crate::types::Variable;
use crate::util::variable_set::VariableSet;
use regex::Regex;
use vstd::prelude::*;
use vstd::set_lib::lemma_len_subset;
use vstd::string::StringExecFns;

verus! {

/// `regex::Regex`, a compiled pattern.  Its inside is hidden.
#[verifier::external_type_specification]
#[verifier::external_body]
pub struct ExRegex(Regex);

/// `regex::Error`, what `Regex::new` gives for a pattern that it does not
/// take.  Its inside is hidden.
#[verifier::external_type_specification]
#[verifier::external_body]
pub struct ExRegexError(regex::Error);

/// The pattern that matches the numbered suffix of a variable's name.
pub const INDEX_SUFFIX: &'static str = r"_\d+$";

/// What `regex::Regex::replace` returns for the regex compiled from
/// `pattern`: `text` with its leftmost match replaced by `replacement`, or
/// `text` itself if nothing matches.
pub uninterp spec fn regex_replaced(
    pattern: Seq<char>,
    text: Seq<char>,
    replacement: Seq<char>,
) -> Seq<char>;

/// Whether `regex::Regex::new` takes `pattern`: whether it is a regular
/// expression in the crate's syntax whose compiled form stays within the
/// crate's default size limit.
pub uninterp spec fn pattern_compiles(pattern: Seq<char>) -> bool;

/// A compiled pattern, kept with the text it was compiled from.
pub struct VarNamePattern {
    source: String,
    compiled: Regex,
}

/// The pattern could not be compiled.
#[derive(Clone, Copy, Debug, PartialEq, Eq, Structural)]
pub struct PatternError {}

/// `regex::Regex::new` on `pattern`.  It succeeds on the patterns that the
/// crate takes, and the result then holds the compiled regex beside the
/// pattern's text; an invalid pattern, or one whose program would be too
/// big, gives the crate's error.
#[verifier::external_body]
fn compile_pattern(pattern: &str) -> (res: Result<VarNamePattern, regex::Error>)
    ensures
        res is Ok == pattern_compiles(pattern@),
        res matches Ok(compiled) ==> compiled.source() == pattern@,
{
    Regex::new(pattern).map(|compiled| VarNamePattern { source: pattern.to_string(), compiled })
}

/// `regex::Regex::replace` with the compiled pattern on `text`: the result
/// is what the crate returns for the pattern's text, `text` and
/// `replacement`.
#[verifier::external_body]
fn replace_first(pattern: &VarNamePattern, text: &str, replacement: &str) -> (out: String)
    ensures
        out@ == regex_replaced(pattern.source(), text@, replacement@),
{
    pattern.compiled.replace(text, replacement).into_owned()
}

impl VarNamePattern {
    /// The text of the pattern.
    pub closed spec fn source(&self) -> Seq<char> {
        self.source@
    }

    /// Compiles `INDEX_SUFFIX`; `from_compiled` says what comes of the outcome.
    pub fn new() -> (res: Result<Self, PatternError>)
        ensures
            res is Ok == pattern_compiles(INDEX_SUFFIX@),
            res matches Ok(pattern) ==> pattern.source() == INDEX_SUFFIX@,
    {
        Self::from_compiled(compile_pattern(INDEX_SUFFIX))
    }

    /// What is made of the outcome of compiling a pattern: the compiled
    /// pattern as it is, and `PatternError` in place of any error.
    pub fn from_compiled(outcome: Result<VarNamePattern, regex::Error>) -> (res: Result<
        Self,
        PatternError,
    >)
        ensures
            res == (match outcome {
                Ok(pattern) => Ok::<VarNamePattern, PatternError>(pattern),
                Err(_) => Err(PatternError {  }),
            }),
    {
        match outcome {
            Ok(pattern) => Ok(pattern),
            Err(_) => Err(PatternError {  }),
        }
    }

    /// `name` without what the pattern matches in it.
    pub fn strip(&self, name: &str) -> (base: String)
        ensures
            base@ == base_name(self.source(), name@),
    {
        replace_first(self, name, "")
    }
}

/// The base of a variable's name: the name without the first match of the
/// pattern.
pub open spec fn base_name(pattern: Seq<char>, name: Seq<char>) -> Seq<char> {
    regex_replaced(pattern, name, ""@)
}

/// The decimal digit for a number below ten.
pub open spec fn digit(d: nat) -> char {
    if d == 0 {
        '0'
    } else if d == 1 {
        '1'
    } else if d == 2 {
        '2'
    } else if d == 3 {
        '3'
    } else if d == 4 {
        '4'
    } else if d == 5 {
        '5'
    } else if d == 6 {
        '6'
    } else if d == 7 {
        '7'
    } else if d == 8 {
        '8'
    } else {
        '9'
    }
}

/// A number in decimal, without leading zeros.
pub open spec fn decimal(n: nat) -> Seq<char>
    decreases n,
{
    if n < 10 {
        seq![digit(n)]
    } else {
        decimal(n / 10).push(digit(n % 10))
    }
}

/// The `k`-th candidate for a fresh name with the given base.
pub open spec fn candidate(base: Seq<char>, k: nat) -> Seq<char> {
    base + seq!['_'] + decimal(k)
}

/// The least positive number whose candidate is not taken.
pub open spec fn first_free(base: Seq<char>, taken: Set<Seq<char>>) -> nat {
    choose|k: nat|
        k >= 1 && !taken.contains(candidate(base, k)) && forall|j: nat|
            1 <= j < k ==> taken.contains(#[trigger] candidate(base, j))
}

/// The fresh name for a base: its first candidate that is not taken.
pub open spec fn fresh_name(base: Seq<char>, taken: Set<Seq<char>>) -> Seq<char> {
    candidate(base, first_free(base, taken))
}

pub proof fn lemma_decimal_len(n: nat)
    ensures
        decimal(n).len() >= 1,
        n >= 10 ==> decimal(n).len() >= 2,
    decreases n,
{
    if n >= 10 {
        lemma_decimal_len(n / 10);
    }
}

/// Different numbers are written differently.
pub proof fn lemma_decimal_injective(a: nat, b: nat)
    requires
        decimal(a) == decimal(b),
    ensures
        a == b,
    decreases a,
{
    lemma_decimal_len(a);
    lemma_decimal_len(b);
    if a < 10 && b < 10 {
        assert(decimal(a)[0] == digit(a));
        assert(decimal(b)[0] == digit(b));
    } else if a >= 10 && b >= 10 {
        let x = decimal(a / 10);
        let y = decimal(b / 10);
        let da = digit(a % 10);
        let db = digit(b % 10);
        assert(decimal(a) == x.push(da));
        assert(decimal(b) == y.push(db));
        assert(x.push(da).last() == da);
        assert(y.push(db).last() == db);
        assert(da == db);
        assert(x =~= x.push(da).drop_last());
        assert(y =~= y.push(db).drop_last());
        assert(x == y);
        lemma_decimal_injective(a / 10, b / 10);
        assert(a % 10 == b % 10);
    } else if a < 10 {
        assert(decimal(a).len() == 1);
    } else {
        assert(decimal(b).len() == 1);
    }
}

/// Different numbers give different candidates.
pub proof fn lemma_candidate_injective(base: Seq<char>, a: nat, b: nat)
    requires
        candidate(base, a) == candidate(base, b),
    ensures
        a == b,
{
    let prefix = base + seq!['_'];
    assert(decimal(a) =~= candidate(base, a).skip(prefix.len() as int));
    assert(decimal(b) =~= candidate(base, b).skip(prefix.len() as int));
    lemma_decimal_injective(a, b);
}

fn digit_str(d: u128) -> (s: &'static str)
    requires
        d < 10,
    ensures
        s@ == seq![digit(d as nat)],
{
    proof {
        reveal_strlit("0");
        reveal_strlit("1");
        reveal_strlit("2");
        reveal_strlit("3");
        reveal_strlit("4");
        reveal_strlit("5");
        reveal_strlit("6");
        reveal_strlit("7");
        reveal_strlit("8");
        reveal_strlit("9");
    }
    let s = if d == 0 {
        "0"
    } else if d == 1 {
        "1"
    } else if d == 2 {
        "2"
    } else if d == 3 {
        "3"
    } else if d == 4 {
        "4"
    } else if d == 5 {
        "5"
    } else if d == 6 {
        "6"
    } else if d == 7 {
        "7"
    } else if d == 8 {
        "8"
    } else {
        "9"
    };
    assert(s@ =~= seq![digit(d as nat)]);
    s
}

/// Writes a number in decimal.
pub fn decimal_string(n: u128) -> (s: String)
    ensures
        s@ == decimal(n as nat),
    decreases n,
{
    if n < 10 {
        String::from_str(digit_str(n))
    } else {
        let mut s = decimal_string(n / 10);
        s.append(digit_str(n % 10));
        assert(s@ =~= decimal((n / 10) as nat).push(digit((n % 10) as nat)));
        s
    }
}

fn candidate_name(base: &str, k: u128) -> (name: String)
    ensures
        name@ == candidate(base@, k as nat),
{
    proof {
        reveal_strlit("_");
    }
    let mut name = String::from_str(base);
    name.append("_");
    let number = decimal_string(k);
    name.append(number.as_str());
    assert(name@ =~= candidate(base@, k as nat));
    name
}

/// Makes the fresh variable for `base`: the first of `base_1`, `base_2`, ...
/// that is not among `all_variables`, to which it is then added.
pub fn fresh_variable(base: &str, all_variables: &mut VariableSet) -> (fresh: Variable)
    ensures
        fresh@ == fresh_name(base@, old(all_variables)@),
        !old(all_variables)@.contains(fresh@),
        final(all_variables)@ == old(all_variables)@.insert(fresh@),
{
    let size = all_variables.len();
    let ghost taken = all_variables@;
    let ghost mut tried: Set<Seq<char>> = Set::empty();
    let mut counter: u128 = 0;
    loop
        invariant
            all_variables@ == taken,
            taken == old(all_variables)@,
            taken.finite(),
            taken.len() == size,
            tried.finite(),
            tried.len() == counter,
            tried.subset_of(taken),
            forall|x: Seq<char>|
                tried.contains(x) ==> exists|j: nat|
                    1 <= j <= counter && x == #[trigger] candidate(base@, j),
            forall|j: nat| 1 <= j <= counter ==> taken.contains(#[trigger] candidate(base@, j)),
        decreases taken.len() - tried.len(),
    {
        proof {
            lemma_len_subset(tried, taken);
        }
        let next = counter + 1;
        let variable = Variable { name: candidate_name(base, next) };
        if !all_variables.contains(&variable) {
            all_variables.insert(variable.clone());
            proof {
                let k = next as nat;
                let found = first_free(base@, taken);
                assert(k >= 1 && !taken.contains(candidate(base@, k)) && forall|j: nat|
                    1 <= j < k ==> taken.contains(#[trigger] candidate(base@, j)));
                if found < k {
                    assert(taken.contains(candidate(base@, found)));
                } else if found > k {
                    assert(taken.contains(candidate(base@, k)));
                }
            }
            return variable;
        }
        proof {
            if tried.contains(variable@) {
                let j = choose|j: nat| 1 <= j <= counter && variable@ == candidate(base@, j);
                lemma_candidate_injective(base@, j, next as nat);
            }
            tried = tried.insert(variable@);
            lemma_len_subset(tried, taken);
        }
        counter = next;
    }
}

} // verus!

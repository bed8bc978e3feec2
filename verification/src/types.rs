//! Symbols, terms, atoms and literals, each with its mathematical model.

use rustc_hash::FxHasher;
use std::hash::Hash;
use std::hash::Hasher;
use crate::util::literal_set::LiteralSet;
use vstd::prelude::*;

verus! {

/// What a predicate or a constant is to the prover: its name, the identity of
/// its embedding, and the key under which its similarities are cached.
pub struct SymbolModel {
    pub symbol: Seq<char>,
    pub embedding: Option<u64>,
    pub key: u64,
}

/// The model of a term.
pub enum TermModel {
    Constant(SymbolModel),
    Variable(Seq<char>),
    BoundFunction(Seq<char>, Seq<TermModel>),
}

/// The model of an atom: a predicate applied to terms.
pub struct AtomModel {
    pub predicate: SymbolModel,
    pub terms: Seq<TermModel>,
}

/// The model of a literal: an atom with its polarity.
pub struct LiteralModel {
    pub atom: AtomModel,
    pub polarity: bool,
}

/// Feeds a symbol's name and embedding identity to `rustc_hash::FxHasher`
/// (`Hash::hash` on each, then `Hasher::finish`) and hands back the digest.
/// The digest depends on the target's word size and byte order, so nothing is
/// claimed of its value.
#[verifier::external_body]
fn fx_hash_symbol(symbol: &str, embedding: Option<u64>) -> u64 {
    let mut hasher = FxHasher::default();
    symbol.hash(&mut hasher);
    embedding.hash(&mut hasher);
    hasher.finish()
}

/// A symbol that a similarity comparator can score against another of its
/// kind.
pub trait SimilarityComparable {
    spec fn model(&self) -> SymbolModel;

    /// The key under which similarities of this symbol are cached.
    fn similarity_key(&self) -> (key: u64)
        ensures
            key == self.model().key,
    ;

    fn symbol(&self) -> (symbol: &String)
        ensures
            symbol@ == self.model().symbol,
    ;

    /// The identity of the symbol's embedding, if it has one.
    fn embedding(&self) -> (embedding: Option<u64>)
        ensures
            embedding == self.model().embedding,
    ;
}

/// A predicate symbol.  Two predicates are the same when name and embedding
/// identity agree.  The digest of the two is fixed when the predicate is
/// made by `new`, and only there, so equal names and embedding identities
/// come with equal digests.
#[derive(Debug, PartialEq, Eq, Hash)]
pub struct Predicate {
    pub symbol: String,
    pub embedding: Option<u64>,
    pub(crate) hash: u64,
}

impl View for Predicate {
    type V = SymbolModel;

    closed spec fn view(&self) -> SymbolModel {
        SymbolModel { symbol: self.symbol@, embedding: self.embedding, key: self.hash }
    }
}

impl Clone for Predicate {
    fn clone(&self) -> (res: Self)
        ensures
            res@ == self@,
    {
        Predicate { symbol: self.symbol.clone(), embedding: self.embedding, hash: self.hash }
    }
}

impl Predicate {
    pub fn new(symbol: &str, embedding: Option<u64>) -> (res: Self)
        ensures
            res@.symbol == symbol@,
            res@.embedding == embedding,
    {
        let hash = fx_hash_symbol(symbol, embedding);
        Predicate { symbol: symbol.to_owned(), embedding, hash }
    }

    /// The atom that applies this predicate to `terms`.
    pub fn atom(&self, terms: Vec<Term>) -> (res: Atom)
        ensures
            res@ == (AtomModel { predicate: self@, terms: terms_view(terms@) }),
    {
        Atom { predicate: self.clone(), terms }
    }
}

impl SimilarityComparable for Predicate {
    open spec fn model(&self) -> SymbolModel {
        self@
    }

    fn similarity_key(&self) -> (key: u64) {
        self.hash
    }

    fn symbol(&self) -> (symbol: &String) {
        &self.symbol
    }

    fn embedding(&self) -> (embedding: Option<u64>) {
        self.embedding
    }
}

/// A constant symbol, identified like a predicate.
#[derive(Debug, PartialEq, Eq, Hash)]
pub struct Constant {
    pub symbol: String,
    pub embedding: Option<u64>,
    pub(crate) hash: u64,
}

impl View for Constant {
    type V = SymbolModel;

    closed spec fn view(&self) -> SymbolModel {
        SymbolModel { symbol: self.symbol@, embedding: self.embedding, key: self.hash }
    }
}

impl Clone for Constant {
    fn clone(&self) -> (res: Self)
        ensures
            res@ == self@,
    {
        Constant { symbol: self.symbol.clone(), embedding: self.embedding, hash: self.hash }
    }
}

impl Constant {
    pub fn new(symbol: &str, embedding: Option<u64>) -> (res: Self)
        ensures
            res@.symbol == symbol@,
            res@.embedding == embedding,
    {
        let hash = fx_hash_symbol(symbol, embedding);
        Constant { symbol: symbol.to_owned(), embedding, hash }
    }
}

impl SimilarityComparable for Constant {
    open spec fn model(&self) -> SymbolModel {
        self@
    }

    fn similarity_key(&self) -> (key: u64) {
        self.hash
    }

    fn symbol(&self) -> (symbol: &String) {
        &self.symbol
    }

    fn embedding(&self) -> (embedding: Option<u64>) {
        self.embedding
    }
}

/// A variable, identified by its name.
#[derive(Debug, PartialEq, Eq, Hash)]
pub struct Variable {
    pub name: String,
}

impl View for Variable {
    type V = Seq<char>;

    open spec fn view(&self) -> Seq<char> {
        self.name@
    }
}

impl Clone for Variable {
    fn clone(&self) -> (res: Self)
        ensures
            res@ == self@,
    {
        Variable { name: self.name.clone() }
    }
}

impl Variable {
    pub fn new(name: &str) -> (res: Self)
        ensures
            res@ == name@,
    {
        Variable { name: name.to_owned() }
    }
}

/// A function symbol, identified by its name.
#[derive(Debug, PartialEq, Eq, Hash)]
pub struct Function {
    pub symbol: String,
}

impl View for Function {
    type V = Seq<char>;

    open spec fn view(&self) -> Seq<char> {
        self.symbol@
    }
}

impl Clone for Function {
    fn clone(&self) -> (res: Self)
        ensures
            res@ == self@,
    {
        Function { symbol: self.symbol.clone() }
    }
}

impl Function {
    pub fn new(symbol: &str) -> (res: Self)
        ensures
            res@ == symbol@,
    {
        Function { symbol: symbol.to_owned() }
    }

    /// The term that applies this function to `terms`.
    pub fn bind(&self, terms: Vec<Term>) -> (res: BoundFunction)
        ensures
            res.function@ == self@,
            res.terms == terms,
    {
        BoundFunction::new(self.clone(), terms)
    }
}

/// A function symbol applied to argument terms.
#[derive(Debug, PartialEq, Eq, Hash)]
pub struct BoundFunction {
    pub function: Function,
    pub terms: Vec<Term>,
}

impl BoundFunction {
    pub fn new(function: Function, terms: Vec<Term>) -> (res: Self)
        ensures
            res.function == function,
            res.terms == terms,
    {
        BoundFunction { function, terms }
    }
}

/// A term: a constant, a variable, or a function applied to terms.
#[derive(Debug, PartialEq, Eq, Hash)]
pub enum Term {
    Constant(Constant),
    Variable(Variable),
    BoundFunction(BoundFunction),
}

/// The models of a sequence of terms, in order.
pub open spec fn terms_view(terms: Seq<Term>) -> Seq<TermModel>
    decreases terms,
{
    Seq::new(
        terms.len(),
        |i: int|
            if 0 <= i < terms.len() {
                term_view(terms[i])
            } else {
                arbitrary()
            },
    )
}

/// The model of a term.
pub open spec fn term_view(term: Term) -> TermModel
    decreases term,
{
    match term {
        Term::Constant(c) => TermModel::Constant(c@),
        Term::Variable(v) => TermModel::Variable(v@),
        Term::BoundFunction(f) => TermModel::BoundFunction(f.function@, terms_view(f.terms@)),
    }
}

impl View for Term {
    type V = TermModel;

    open spec fn view(&self) -> TermModel {
        term_view(*self)
    }
}

impl View for BoundFunction {
    type V = TermModel;

    open spec fn view(&self) -> TermModel {
        TermModel::BoundFunction(self.function@, terms_view(self.terms@))
    }
}

impl From<Constant> for Term {
    fn from(constant: Constant) -> (term: Term) {
        Term::Constant(constant)
    }
}

impl vstd::std_specs::convert::FromSpecImpl<Constant> for Term {
    open spec fn obeys_from_spec() -> bool {
        true
    }

    open spec fn from_spec(constant: Constant) -> Term {
        Term::Constant(constant)
    }
}

impl From<Variable> for Term {
    fn from(variable: Variable) -> (term: Term) {
        Term::Variable(variable)
    }
}

impl vstd::std_specs::convert::FromSpecImpl<Variable> for Term {
    open spec fn obeys_from_spec() -> bool {
        true
    }

    open spec fn from_spec(variable: Variable) -> Term {
        Term::Variable(variable)
    }
}

impl From<BoundFunction> for Term {
    fn from(bound: BoundFunction) -> (term: Term) {
        Term::BoundFunction(bound)
    }
}

impl vstd::std_specs::convert::FromSpecImpl<BoundFunction> for Term {
    open spec fn obeys_from_spec() -> bool {
        true
    }

    open spec fn from_spec(bound: BoundFunction) -> Term {
        Term::BoundFunction(bound)
    }
}

/// A copy of each term, in order.
pub fn clone_terms(terms: &Vec<Term>) -> (res: Vec<Term>)
    ensures
        terms_view(res@) == terms_view(terms@),
    decreases terms,
{
    let mut out: Vec<Term> = Vec::new();
    let mut i: usize = 0;
    while i < terms.len()
        invariant
            i <= terms.len(),
            out.len() == i,
            forall|j: int| 0 <= j < i ==> out[j]@ == terms[j]@,
        decreases terms.len() - i,
    {
        let t = terms[i].clone();
        out.push(t);
        i += 1;
    }
    assert(terms_view(out@) =~= terms_view(terms@));
    out
}

impl Clone for BoundFunction {
    fn clone(&self) -> (res: Self)
        ensures
            res@ == self@,
        decreases self,
    {
        BoundFunction { function: self.function.clone(), terms: clone_terms(&self.terms) }
    }
}

impl Clone for Term {
    fn clone(&self) -> (res: Self)
        ensures
            res@ == self@,
        decreases self,
    {
        match self {
            Term::Constant(c) => Term::Constant(c.clone()),
            Term::Variable(v) => Term::Variable(v.clone()),
            Term::BoundFunction(f) => Term::BoundFunction(f.clone()),
        }
    }
}

/// A predicate applied to terms.
#[derive(Debug, PartialEq, Eq, Hash)]
pub struct Atom {
    pub predicate: Predicate,
    pub terms: Vec<Term>,
}

impl View for Atom {
    type V = AtomModel;

    open spec fn view(&self) -> AtomModel {
        AtomModel { predicate: self.predicate@, terms: terms_view(self.terms@) }
    }
}

impl Clone for Atom {
    fn clone(&self) -> (res: Self)
        ensures
            res@ == self@,
    {
        Atom { predicate: self.predicate.clone(), terms: clone_terms(&self.terms) }
    }
}

impl Atom {
    pub fn new(predicate: Predicate, terms: Vec<Term>) -> (res: Self)
        ensures
            res.predicate == predicate,
            res.terms == terms,
    {
        Atom { predicate, terms }
    }
}

/// An atom that is asserted (`polarity`) or denied.
#[derive(Debug, PartialEq, Eq, Hash)]
pub struct CNFLiteral {
    pub atom: Atom,
    pub polarity: bool,
}

impl View for CNFLiteral {
    type V = LiteralModel;

    open spec fn view(&self) -> LiteralModel {
        LiteralModel { atom: self.atom@, polarity: self.polarity }
    }
}

impl Clone for CNFLiteral {
    fn clone(&self) -> (res: Self)
        ensures
            res@ == self@,
    {
        CNFLiteral { atom: self.atom.clone(), polarity: self.polarity }
    }
}

impl CNFLiteral {
    pub fn new(atom: Atom, polarity: bool) -> (res: Self)
        ensures
            res.atom == atom,
            res.polarity == polarity,
    {
        CNFLiteral { atom, polarity }
    }
}

/// A clause: the disjunction of a set of literals.  The clause without
/// literals is the contradiction that a refutation ends in.
#[derive(Debug, PartialEq, Eq, Hash)]
pub struct CNFDisjunction {
    pub literals: LiteralSet,
}

impl View for CNFDisjunction {
    type V = Seq<LiteralModel>;

    open spec fn view(&self) -> Seq<LiteralModel> {
        self.literals@
    }
}

impl Clone for CNFDisjunction {
    fn clone(&self) -> (res: Self)
        ensures
            res@ == self@,
    {
        CNFDisjunction { literals: self.literals.clone() }
    }
}

impl CNFDisjunction {
    pub fn new(literals: LiteralSet) -> (res: Self)
        ensures
            res.literals == literals,
    {
        CNFDisjunction { literals }
    }
}

} // verus!

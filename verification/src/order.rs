//! The total order in which a clause keeps its literals.
//!
//! Names are ordered as their UTF-8 bytes are, position by position; symbols
//! by name, then embedding identity, then key; terms by kind (constants
//! first, then variables, then function terms) and then by content; atoms by
//! predicate and then by their terms; literals by atom, the denied one first.

use crate::types::Atom;
use crate::types::Constant;
use crate::types::Predicate;
use crate::types::SimilarityComparable;
use crate::types::AtomModel;
use crate::types::CNFLiteral;
use crate::types::LiteralModel;
use crate::types::SymbolModel;
use crate::types::Term;
use crate::types::TermModel;
use crate::types::terms_view;
use vstd::prelude::*;
use vstd::utf8::encode_utf8;
use vstd::utf8::encode_utf8_decode_utf8;

verus! {

/// How one value stands to another in a total order.
#[derive(Clone, Copy, Debug, PartialEq, Eq, Structural)]
pub enum Precedence {
    Before,
    Same,
    After,
}

/// Lexicographic combination: `first` decides unless it is `Same`.
pub open spec fn refine(first: Precedence, second: Precedence) -> Precedence {
    if first == Precedence::Same {
        second
    } else {
        first
    }
}

pub open spec fn int_order(a: int, b: int) -> Precedence {
    if a < b {
        Precedence::Before
    } else if a == b {
        Precedence::Same
    } else {
        Precedence::After
    }
}

pub open spec fn bool_order(a: bool, b: bool) -> Precedence {
    int_order(if a { 1 } else { 0 }, if b { 1 } else { 0 })
}

/// `None` comes before every `Some`.
pub open spec fn option_order(a: Option<u64>, b: Option<u64>) -> Precedence {
    match (a, b) {
        (None, None) => Precedence::Same,
        (None, Some(_)) => Precedence::Before,
        (Some(_), None) => Precedence::After,
        (Some(x), Some(y)) => int_order(x as int, y as int),
    }
}

/// The order of two byte strings that agree before position `i`.
pub open spec fn bytes_order_from(a: Seq<u8>, b: Seq<u8>, i: int) -> Precedence
    decreases a.len() - i,
{
    if i < 0 {
        Precedence::Same
    } else if i >= a.len() {
        if i >= b.len() {
            Precedence::Same
        } else {
            Precedence::Before
        }
    } else if i >= b.len() {
        Precedence::After
    } else if a[i] != b[i] {
        int_order(a[i] as int, b[i] as int)
    } else {
        bytes_order_from(a, b, i + 1)
    }
}

pub open spec fn name_order(a: Seq<char>, b: Seq<char>) -> Precedence {
    bytes_order_from(encode_utf8(a), encode_utf8(b), 0)
}

pub open spec fn symbol_order(a: SymbolModel, b: SymbolModel) -> Precedence {
    refine(
        name_order(a.symbol, b.symbol),
        refine(option_order(a.embedding, b.embedding), int_order(a.key as int, b.key as int)),
    )
}

pub open spec fn term_kind(t: TermModel) -> int {
    match t {
        TermModel::Constant(_) => 0,
        TermModel::Variable(_) => 1,
        TermModel::BoundFunction(_, _) => 2,
    }
}

pub open spec fn term_order(a: TermModel, b: TermModel) -> Precedence
    decreases a, 0int,
{
    match (a, b) {
        (TermModel::Constant(x), TermModel::Constant(y)) => symbol_order(x, y),
        (TermModel::Variable(x), TermModel::Variable(y)) => name_order(x, y),
        (TermModel::BoundFunction(f, xs), TermModel::BoundFunction(g, ys)) => refine(
            name_order(f, g),
            terms_order_from(xs, ys, 0),
        ),
        _ => int_order(term_kind(a), term_kind(b)),
    }
}

/// The order of two term sequences that agree before position `i`.
pub open spec fn terms_order_from(a: Seq<TermModel>, b: Seq<TermModel>, i: int) -> Precedence
    decreases a, a.len() - i,
{
    if i < 0 {
        Precedence::Same
    } else if i >= a.len() {
        if i >= b.len() {
            Precedence::Same
        } else {
            Precedence::Before
        }
    } else if i >= b.len() {
        Precedence::After
    } else {
        refine(term_order(a[i], b[i]), terms_order_from(a, b, i + 1))
    }
}

pub open spec fn atom_order(a: AtomModel, b: AtomModel) -> Precedence {
    refine(symbol_order(a.predicate, b.predicate), terms_order_from(a.terms, b.terms, 0))
}

pub open spec fn literal_order(a: LiteralModel, b: LiteralModel) -> Precedence {
    refine(atom_order(a.atom, b.atom), bool_order(a.polarity, b.polarity))
}

/// The order of two literal sequences that agree before position `i`.
pub open spec fn literals_order_from(a: Seq<LiteralModel>, b: Seq<LiteralModel>, i: int) -> Precedence
    decreases a.len() - i,
{
    if i < 0 {
        Precedence::Same
    } else if i >= a.len() {
        if i >= b.len() {
            Precedence::Same
        } else {
            Precedence::Before
        }
    } else if i >= b.len() {
        Precedence::After
    } else {
        refine(literal_order(a[i], b[i]), literals_order_from(a, b, i + 1))
    }
}

/// The order of clauses: that of their literals, position by position.
pub open spec fn clause_order(a: Seq<LiteralModel>, b: Seq<LiteralModel>) -> Precedence {
    literals_order_from(a, b, 0)
}

// ---------------------------------------------------------------------------
// The three laws of each order: `Same` is equality, swapping the arguments
// swaps `Before` and `After`, and `Before` is transitive.
// ---------------------------------------------------------------------------

pub proof fn lemma_bytes_order_same(a: Seq<u8>, b: Seq<u8>, i: int)
    requires
        0 <= i <= a.len(),
        i <= b.len(),
        forall|j: int| 0 <= j < i ==> a[j] == b[j],
    ensures
        (bytes_order_from(a, b, i) == Precedence::Same) <==> a == b,
    decreases a.len() - i,
{
    if i >= a.len() || i >= b.len() {
        if i >= a.len() && i >= b.len() {
            assert(a =~= b);
        }
    } else if a[i] != b[i] {
    } else {
        lemma_bytes_order_same(a, b, i + 1);
    }
}

pub proof fn lemma_bytes_order_flip(a: Seq<u8>, b: Seq<u8>, i: int)
    ensures
        (bytes_order_from(a, b, i) == Precedence::Before) <==> (bytes_order_from(b, a, i)
            == Precedence::After),
        (bytes_order_from(a, b, i) == Precedence::Same) <==> (bytes_order_from(b, a, i)
            == Precedence::Same),
    decreases a.len() - i,
{
    if 0 <= i && i < a.len() && i < b.len() && a[i] == b[i] {
        lemma_bytes_order_flip(a, b, i + 1);
    }
}

pub proof fn lemma_bytes_order_trans(a: Seq<u8>, b: Seq<u8>, c: Seq<u8>, i: int)
    requires
        bytes_order_from(a, b, i) == Precedence::Before,
        bytes_order_from(b, c, i) == Precedence::Before,
    ensures
        bytes_order_from(a, c, i) == Precedence::Before,
    decreases a.len() - i,
{
    if 0 <= i && i < a.len() && i < b.len() && i < c.len() && a[i] == b[i] && b[i] == c[i] {
        lemma_bytes_order_trans(a, b, c, i + 1);
    }
}

pub proof fn lemma_name_order_same(a: Seq<char>, b: Seq<char>)
    ensures
        (name_order(a, b) == Precedence::Same) <==> a == b,
{
    lemma_bytes_order_same(encode_utf8(a), encode_utf8(b), 0);
    encode_utf8_decode_utf8(a);
    encode_utf8_decode_utf8(b);
}

pub proof fn lemma_name_order_flip(a: Seq<char>, b: Seq<char>)
    ensures
        (name_order(a, b) == Precedence::Before) <==> (name_order(b, a) == Precedence::After),
{
    lemma_bytes_order_flip(encode_utf8(a), encode_utf8(b), 0);
}

pub proof fn lemma_name_order_trans(a: Seq<char>, b: Seq<char>, c: Seq<char>)
    requires
        name_order(a, b) == Precedence::Before,
        name_order(b, c) == Precedence::Before,
    ensures
        name_order(a, c) == Precedence::Before,
{
    lemma_bytes_order_trans(encode_utf8(a), encode_utf8(b), encode_utf8(c), 0);
}

pub proof fn lemma_symbol_order_same(a: SymbolModel, b: SymbolModel)
    ensures
        (symbol_order(a, b) == Precedence::Same) <==> a == b,
{
    lemma_name_order_same(a.symbol, b.symbol);
}

pub proof fn lemma_symbol_order_flip(a: SymbolModel, b: SymbolModel)
    ensures
        (symbol_order(a, b) == Precedence::Before) <==> (symbol_order(b, a) == Precedence::After),
{
    lemma_name_order_flip(a.symbol, b.symbol);
    lemma_name_order_flip(b.symbol, a.symbol);
    lemma_name_order_same(a.symbol, b.symbol);
    lemma_name_order_same(b.symbol, a.symbol);
}

pub proof fn lemma_symbol_order_trans(a: SymbolModel, b: SymbolModel, c: SymbolModel)
    requires
        symbol_order(a, b) == Precedence::Before,
        symbol_order(b, c) == Precedence::Before,
    ensures
        symbol_order(a, c) == Precedence::Before,
{
    lemma_name_order_same(a.symbol, b.symbol);
    lemma_name_order_same(b.symbol, c.symbol);
    lemma_name_order_same(a.symbol, c.symbol);
    lemma_name_order_flip(a.symbol, b.symbol);
    lemma_name_order_flip(b.symbol, c.symbol);
    lemma_name_order_flip(a.symbol, c.symbol);
    if name_order(a.symbol, b.symbol) == Precedence::Before && name_order(b.symbol, c.symbol)
        == Precedence::Before {
        lemma_name_order_trans(a.symbol, b.symbol, c.symbol);
    }
}

pub proof fn lemma_term_order_same(a: TermModel, b: TermModel)
    ensures
        (term_order(a, b) == Precedence::Same) <==> a == b,
    decreases a, 0int,
{
    match (a, b) {
        (TermModel::Constant(x), TermModel::Constant(y)) => {
            lemma_symbol_order_same(x, y);
        },
        (TermModel::Variable(x), TermModel::Variable(y)) => {
            lemma_name_order_same(x, y);
        },
        (TermModel::BoundFunction(f, xs), TermModel::BoundFunction(g, ys)) => {
            lemma_name_order_same(f, g);
            lemma_terms_order_same(xs, ys, 0);
        },
        _ => {},
    }
}

pub proof fn lemma_terms_order_same(a: Seq<TermModel>, b: Seq<TermModel>, i: int)
    requires
        0 <= i <= a.len(),
        i <= b.len(),
        forall|j: int| 0 <= j < i ==> a[j] == b[j],
    ensures
        (terms_order_from(a, b, i) == Precedence::Same) <==> a == b,
    decreases a, a.len() - i,
{
    if i >= a.len() || i >= b.len() {
        if i >= a.len() && i >= b.len() {
            assert(a =~= b);
        }
    } else {
        lemma_term_order_same(a[i], b[i]);
        if a[i] == b[i] {
            lemma_terms_order_same(a, b, i + 1);
        }
    }
}

pub proof fn lemma_term_order_flip(a: TermModel, b: TermModel)
    ensures
        (term_order(a, b) == Precedence::Before) <==> (term_order(b, a) == Precedence::After),
        (term_order(a, b) == Precedence::Same) <==> (term_order(b, a) == Precedence::Same),
    decreases a, 0int,
{
    match (a, b) {
        (TermModel::Constant(x), TermModel::Constant(y)) => {
            lemma_symbol_order_flip(x, y);
            lemma_symbol_order_same(x, y);
            lemma_symbol_order_same(y, x);
        },
        (TermModel::Variable(x), TermModel::Variable(y)) => {
            lemma_name_order_flip(x, y);
            lemma_name_order_same(x, y);
            lemma_name_order_same(y, x);
        },
        (TermModel::BoundFunction(f, xs), TermModel::BoundFunction(g, ys)) => {
            lemma_name_order_flip(f, g);
            lemma_name_order_same(f, g);
            lemma_name_order_same(g, f);
            lemma_terms_order_flip(xs, ys, 0);
        },
        _ => {},
    }
}

pub proof fn lemma_terms_order_flip(a: Seq<TermModel>, b: Seq<TermModel>, i: int)
    ensures
        (terms_order_from(a, b, i) == Precedence::Before) <==> (terms_order_from(b, a, i)
            == Precedence::After),
        (terms_order_from(a, b, i) == Precedence::Same) <==> (terms_order_from(b, a, i)
            == Precedence::Same),
    decreases a, a.len() - i,
{
    if 0 <= i && i < a.len() && i < b.len() {
        lemma_term_order_flip(a[i], b[i]);
        lemma_terms_order_flip(a, b, i + 1);
    }
}

pub proof fn lemma_term_order_trans(a: TermModel, b: TermModel, c: TermModel)
    requires
        term_order(a, b) == Precedence::Before,
        term_order(b, c) == Precedence::Before,
    ensures
        term_order(a, c) == Precedence::Before,
    decreases a, 0int,
{
    match (a, b, c) {
        (TermModel::Constant(x), TermModel::Constant(y), TermModel::Constant(z)) => {
            lemma_symbol_order_trans(x, y, z);
        },
        (TermModel::Variable(x), TermModel::Variable(y), TermModel::Variable(z)) => {
            lemma_name_order_trans(x, y, z);
        },
        (
            TermModel::BoundFunction(f, xs),
            TermModel::BoundFunction(g, ys),
            TermModel::BoundFunction(h, zs),
        ) => {
            lemma_name_order_same(f, g);
            lemma_name_order_same(g, h);
            lemma_name_order_same(f, h);
            lemma_name_order_flip(f, g);
            lemma_name_order_flip(g, h);
            lemma_name_order_flip(f, h);
            if name_order(f, g) == Precedence::Before && name_order(g, h) == Precedence::Before {
                lemma_name_order_trans(f, g, h);
            }
            if f == g && g == h {
                lemma_terms_order_trans(xs, ys, zs, 0);
            }
        },
        _ => {},
    }
}

pub proof fn lemma_terms_order_trans(
    a: Seq<TermModel>,
    b: Seq<TermModel>,
    c: Seq<TermModel>,
    i: int,
)
    requires
        terms_order_from(a, b, i) == Precedence::Before,
        terms_order_from(b, c, i) == Precedence::Before,
    ensures
        terms_order_from(a, c, i) == Precedence::Before,
    decreases a, a.len() - i,
{
    if 0 <= i && i < a.len() && i < b.len() && i < c.len() {
        lemma_term_order_same(a[i], b[i]);
        lemma_term_order_same(b[i], c[i]);
        lemma_term_order_same(a[i], c[i]);
        lemma_term_order_flip(a[i], b[i]);
        lemma_term_order_flip(b[i], c[i]);
        lemma_term_order_flip(a[i], c[i]);
        if term_order(a[i], b[i]) == Precedence::Before && term_order(b[i], c[i])
            == Precedence::Before {
            lemma_term_order_trans(a[i], b[i], c[i]);
        }
        if a[i] == b[i] && b[i] == c[i] {
            lemma_terms_order_trans(a, b, c, i + 1);
        }
    }
}

pub proof fn lemma_atom_order_same(a: AtomModel, b: AtomModel)
    ensures
        (atom_order(a, b) == Precedence::Same) <==> a == b,
{
    lemma_symbol_order_same(a.predicate, b.predicate);
    lemma_terms_order_same(a.terms, b.terms, 0);
}

pub proof fn lemma_atom_order_flip(a: AtomModel, b: AtomModel)
    ensures
        (atom_order(a, b) == Precedence::Before) <==> (atom_order(b, a) == Precedence::After),
{
    lemma_symbol_order_flip(a.predicate, b.predicate);
    lemma_symbol_order_flip(b.predicate, a.predicate);
    lemma_symbol_order_same(a.predicate, b.predicate);
    lemma_symbol_order_same(b.predicate, a.predicate);
    lemma_terms_order_flip(a.terms, b.terms, 0);
}

pub proof fn lemma_atom_order_trans(a: AtomModel, b: AtomModel, c: AtomModel)
    requires
        atom_order(a, b) == Precedence::Before,
        atom_order(b, c) == Precedence::Before,
    ensures
        atom_order(a, c) == Precedence::Before,
{
    lemma_symbol_order_same(a.predicate, b.predicate);
    lemma_symbol_order_same(b.predicate, c.predicate);
    lemma_symbol_order_same(a.predicate, c.predicate);
    lemma_symbol_order_flip(a.predicate, b.predicate);
    lemma_symbol_order_flip(b.predicate, c.predicate);
    lemma_symbol_order_flip(a.predicate, c.predicate);
    if symbol_order(a.predicate, b.predicate) == Precedence::Before && symbol_order(
        b.predicate,
        c.predicate,
    ) == Precedence::Before {
        lemma_symbol_order_trans(a.predicate, b.predicate, c.predicate);
    }
    if a.predicate == b.predicate && b.predicate == c.predicate {
        lemma_terms_order_trans(a.terms, b.terms, c.terms, 0);
    }
}

/// `literal_order` gives `Same` for equal literals and for no others.
pub proof fn lemma_literal_order_same(a: LiteralModel, b: LiteralModel)
    ensures
        (literal_order(a, b) == Precedence::Same) <==> a == b,
{
    lemma_atom_order_same(a.atom, b.atom);
}

/// Swapping the arguments of `literal_order` swaps `Before` and `After`.
pub proof fn lemma_literal_order_flip(a: LiteralModel, b: LiteralModel)
    ensures
        (literal_order(a, b) == Precedence::Before) <==> (literal_order(b, a)
            == Precedence::After),
{
    lemma_atom_order_flip(a.atom, b.atom);
    lemma_atom_order_flip(b.atom, a.atom);
    lemma_atom_order_same(a.atom, b.atom);
    lemma_atom_order_same(b.atom, a.atom);
}

/// `Before` is transitive for `literal_order`.
pub proof fn lemma_literal_order_trans(a: LiteralModel, b: LiteralModel, c: LiteralModel)
    requires
        literal_order(a, b) == Precedence::Before,
        literal_order(b, c) == Precedence::Before,
    ensures
        literal_order(a, c) == Precedence::Before,
{
    lemma_atom_order_same(a.atom, b.atom);
    lemma_atom_order_same(b.atom, c.atom);
    lemma_atom_order_same(a.atom, c.atom);
    lemma_atom_order_flip(a.atom, b.atom);
    lemma_atom_order_flip(b.atom, c.atom);
    lemma_atom_order_flip(a.atom, c.atom);
    if atom_order(a.atom, b.atom) == Precedence::Before && atom_order(b.atom, c.atom)
        == Precedence::Before {
        lemma_atom_order_trans(a.atom, b.atom, c.atom);
    }
}

pub proof fn lemma_literals_order_same(a: Seq<LiteralModel>, b: Seq<LiteralModel>, i: int)
    requires
        0 <= i <= a.len(),
        i <= b.len(),
        forall|j: int| 0 <= j < i ==> a[j] == b[j],
    ensures
        (literals_order_from(a, b, i) == Precedence::Same) <==> a == b,
    decreases a.len() - i,
{
    if i >= a.len() || i >= b.len() {
        if i >= a.len() && i >= b.len() {
            assert(a =~= b);
        }
    } else {
        lemma_literal_order_same(a[i], b[i]);
        if a[i] == b[i] {
            lemma_literals_order_same(a, b, i + 1);
        }
    }
}

pub proof fn lemma_literals_order_flip(a: Seq<LiteralModel>, b: Seq<LiteralModel>, i: int)
    ensures
        (literals_order_from(a, b, i) == Precedence::Before) <==> (literals_order_from(b, a, i)
            == Precedence::After),
        (literals_order_from(a, b, i) == Precedence::Same) <==> (literals_order_from(b, a, i)
            == Precedence::Same),
    decreases a.len() - i,
{
    if 0 <= i && i < a.len() && i < b.len() {
        lemma_literal_order_flip(a[i], b[i]);
        lemma_literal_order_flip(b[i], a[i]);
        lemma_literal_order_same(a[i], b[i]);
        lemma_literal_order_same(b[i], a[i]);
        lemma_literals_order_flip(a, b, i + 1);
    }
}

pub proof fn lemma_literals_order_trans(
    a: Seq<LiteralModel>,
    b: Seq<LiteralModel>,
    c: Seq<LiteralModel>,
    i: int,
)
    requires
        literals_order_from(a, b, i) == Precedence::Before,
        literals_order_from(b, c, i) == Precedence::Before,
    ensures
        literals_order_from(a, c, i) == Precedence::Before,
    decreases a.len() - i,
{
    if 0 <= i && i < a.len() && i < b.len() && i < c.len() {
        lemma_literal_order_same(a[i], b[i]);
        lemma_literal_order_same(b[i], c[i]);
        lemma_literal_order_same(a[i], c[i]);
        lemma_literal_order_flip(a[i], b[i]);
        lemma_literal_order_flip(b[i], c[i]);
        lemma_literal_order_flip(a[i], c[i]);
        if literal_order(a[i], b[i]) == Precedence::Before && literal_order(b[i], c[i])
            == Precedence::Before {
            lemma_literal_order_trans(a[i], b[i], c[i]);
        }
        if a[i] == b[i] && b[i] == c[i] {
            lemma_literals_order_trans(a, b, c, i + 1);
        }
    }
}

// ---------------------------------------------------------------------------
// The executable comparisons.
// ---------------------------------------------------------------------------

pub fn compare_u64(a: u64, b: u64) -> (r: Precedence)
    ensures
        r == int_order(a as int, b as int),
{
    if a < b {
        Precedence::Before
    } else if a == b {
        Precedence::Same
    } else {
        Precedence::After
    }
}

pub fn compare_names(a: &String, b: &String) -> (r: Precedence)
    ensures
        r == name_order(a@, b@),
{
    let x = a.as_str().as_bytes();
    let y = b.as_str().as_bytes();
    let mut i: usize = 0;
    while i < x.len() && i < y.len()
        invariant
            x@ == encode_utf8(a@),
            y@ == encode_utf8(b@),
            i <= x.len(),
            i <= y.len(),
            name_order(a@, b@) == bytes_order_from(x@, y@, i as int),
        decreases x.len() - i,
    {
        if x[i] < y[i] {
            return Precedence::Before;
        } else if x[i] > y[i] {
            return Precedence::After;
        }
        i += 1;
    }
    if i < y.len() {
        Precedence::Before
    } else if i < x.len() {
        Precedence::After
    } else {
        Precedence::Same
    }
}

fn compare_symbol_parts(
    name_a: &String,
    embedding_a: Option<u64>,
    key_a: u64,
    name_b: &String,
    embedding_b: Option<u64>,
    key_b: u64,
) -> (r: Precedence)
    ensures
        r == symbol_order(
            SymbolModel { symbol: name_a@, embedding: embedding_a, key: key_a },
            SymbolModel { symbol: name_b@, embedding: embedding_b, key: key_b },
        ),
{
    let by_name = compare_names(name_a, name_b);
    if by_name != Precedence::Same {
        return by_name;
    }
    let by_embedding = match (embedding_a, embedding_b) {
        (None, None) => Precedence::Same,
        (None, Some(_)) => Precedence::Before,
        (Some(_), None) => Precedence::After,
        (Some(x), Some(y)) => compare_u64(x, y),
    };
    if by_embedding != Precedence::Same {
        return by_embedding;
    }
    compare_u64(key_a, key_b)
}

pub fn compare_predicates(a: &Predicate, b: &Predicate) -> (r: Precedence)
    ensures
        r == symbol_order(a@, b@),
{
    compare_symbol_parts(
        a.symbol(),
        a.embedding(),
        a.similarity_key(),
        b.symbol(),
        b.embedding(),
        b.similarity_key(),
    )
}

pub fn compare_constants(a: &Constant, b: &Constant) -> (r: Precedence)
    ensures
        r == symbol_order(a@, b@),
{
    compare_symbol_parts(
        a.symbol(),
        a.embedding(),
        a.similarity_key(),
        b.symbol(),
        b.embedding(),
        b.similarity_key(),
    )
}

pub fn compare_terms(a: &Term, b: &Term) -> (r: Precedence)
    ensures
        r == term_order(a@, b@),
    decreases a,
{
    match (a, b) {
        (Term::Constant(x), Term::Constant(y)) => compare_constants(x, y),
        (Term::Constant(_), _) => Precedence::Before,
        (Term::Variable(_), Term::Constant(_)) => Precedence::After,
        (Term::Variable(x), Term::Variable(y)) => compare_names(&x.name, &y.name),
        (Term::Variable(_), Term::BoundFunction(_)) => Precedence::Before,
        (Term::BoundFunction(f), Term::BoundFunction(g)) => {
            let by_name = compare_names(&f.function.symbol, &g.function.symbol);
            if by_name != Precedence::Same {
                by_name
            } else {
                compare_term_lists(&f.terms, &g.terms)
            }
        },
        (Term::BoundFunction(_), _) => Precedence::After,
    }
}

pub fn compare_term_lists(a: &Vec<Term>, b: &Vec<Term>) -> (r: Precedence)
    ensures
        r == terms_order_from(terms_view(a@), terms_view(b@), 0),
    decreases a,
{
    let mut i: usize = 0;
    while i < a.len() && i < b.len()
        invariant
            i <= a.len(),
            i <= b.len(),
            terms_order_from(terms_view(a@), terms_view(b@), 0) == terms_order_from(
                terms_view(a@),
                terms_view(b@),
                i as int,
            ),
        decreases a.len() - i,
    {
        let here = compare_terms(&a[i], &b[i]);
        if here != Precedence::Same {
            return here;
        }
        i += 1;
    }
    if i < b.len() {
        Precedence::Before
    } else if i < a.len() {
        Precedence::After
    } else {
        Precedence::Same
    }
}

pub fn compare_atoms(a: &Atom, b: &Atom) -> (r: Precedence)
    ensures
        r == atom_order(a@, b@),
{
    let by_predicate = compare_predicates(&a.predicate, &b.predicate);
    if by_predicate != Precedence::Same {
        by_predicate
    } else {
        compare_term_lists(&a.terms, &b.terms)
    }
}

pub fn compare_literals(a: &CNFLiteral, b: &CNFLiteral) -> (r: Precedence)
    ensures
        r == literal_order(a@, b@),
{
    let by_atom = compare_atoms(&a.atom, &b.atom);
    if by_atom != Precedence::Same {
        by_atom
    } else if a.polarity == b.polarity {
        Precedence::Same
    } else if b.polarity {
        Precedence::Before
    } else {
        Precedence::After
    }
}

} // verus!

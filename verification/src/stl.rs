//! Reading a mesh from the text of an ASCII STL file.
//!
//! The text is cut into tokens at whitespace. Two tokens carry meaning: the
//! one that announces a vertex, which is followed by three numbers, and the
//! one that closes a loop, which turns the three oldest pending vertices into
//! a triangle. Every other token is passed over.
//!
//! Whether a token is written as a number is decided here. Which number it
//! denotes is not: rounding a decimal to the nearest single-precision number
//! is left to the caller, who supplies the value of each token that is
//! written as a number.
use vstd::prelude::*;
use crate::scalar::Scalar;
use crate::tokens::{texts, tokenize, tokens_of};
use crate::mesh::{Mesh, Triangle, Vertex};
use crate::literal::{check_number_literal, is_number_literal};

verus! {

/// Why a text is not a mesh.
#[derive(Debug, Clone, Copy, PartialEq, Eq, Structural)]
pub enum ParseError {
    /// One of the three tokens after a vertex keyword is missing, is not
    /// written as a number, or was given no value.
    NumericFormat,
    /// A loop was closed with fewer than three vertices pending.
    StructuralUnderflow,
}

/// The token that announces a vertex.
pub open spec fn vertex_keyword() -> Seq<char> {
    seq!['v', 'e', 'r', 't', 'e', 'x']
}

/// The token that closes a loop.
pub open spec fn endloop_keyword() -> Seq<char> {
    seq!['e', 'n', 'd', 'l', 'o', 'o', 'p']
}

fn is_vertex_keyword(token: &Vec<char>) -> (r: bool)
    ensures
        r == (token@ == vertex_keyword()),
{
    let r = token.len() == 6 && token[0] == 'v' && token[1] == 'e' && token[2] == 'r' && token[3]
        == 't' && token[4] == 'e' && token[5] == 'x';
    proof {
        if r {
            assert(token@ =~= vertex_keyword());
        }
    }
    r
}

fn is_endloop_keyword(token: &Vec<char>) -> (r: bool)
    ensures
        r == (token@ == endloop_keyword()),
{
    let r = token.len() == 7 && token[0] == 'e' && token[1] == 'n' && token[2] == 'd' && token[3]
        == 'l' && token[4] == 'o' && token[5] == 'o' && token[6] == 'p';
    proof {
        if r {
            assert(token@ =~= endloop_keyword());
        }
    }
    r
}

/// The number that the token at `j` denotes: the entry for it, where the
/// token is written as a number. None where there is no such token, where
/// it is not written as a number, or where it has no entry.
pub open spec fn number_at(tokens: Seq<Seq<char>>, numbers: Seq<Option<Scalar>>, j: int) -> Option<
    Scalar,
> {
    if 0 <= j < tokens.len() && j < numbers.len() && is_number_literal(tokens[j]) {
        numbers[j]
    } else {
        None
    }
}

/// The vertex that the three tokens after position `i` denote, if each of
/// them denotes a number.
pub open spec fn vertex_after(
    tokens: Seq<Seq<char>>,
    numbers: Seq<Option<Scalar>>,
    i: int,
) -> Option<Vertex> {
    match (
        number_at(tokens, numbers, i + 1),
        number_at(tokens, numbers, i + 2),
        number_at(tokens, numbers, i + 3),
    ) {
        (Some(x), Some(y), Some(z)) => Some([x, y, z]),
        _ => None,
    }
}

/// What has been read: the vertices that wait for their loop to be closed,
/// oldest first, and the triangles built so far.
pub struct Progress {
    pub pending: Seq<Vertex>,
    pub triangles: Seq<Triangle>,
}

/// Reads the token at position `i`.
pub open spec fn step(
    p: Progress,
    tokens: Seq<Seq<char>>,
    numbers: Seq<Option<Scalar>>,
    i: int,
) -> Result<Progress, ParseError> {
    if tokens[i] == vertex_keyword() {
        match vertex_after(tokens, numbers, i) {
            Some(v) => Ok(Progress { pending: p.pending.push(v), triangles: p.triangles }),
            None => Err(ParseError::NumericFormat),
        }
    } else if tokens[i] == endloop_keyword() {
        if p.pending.len() < 3 {
            Err(ParseError::StructuralUnderflow)
        } else {
            Ok(
                Progress {
                    pending: p.pending.skip(3),
                    triangles: p.triangles.push(
                        Triangle::on([p.pending[0], p.pending[1], p.pending[2]]),
                    ),
                },
            )
        }
    } else {
        Ok(p)
    }
}

/// Reads the first `n` tokens in order, stopping at the first error.
pub open spec fn scan(tokens: Seq<Seq<char>>, numbers: Seq<Option<Scalar>>, n: nat) -> Result<
    Progress,
    ParseError,
>
    decreases n,
{
    if n == 0 {
        Ok(Progress { pending: Seq::empty(), triangles: Seq::empty() })
    } else {
        match scan(tokens, numbers, (n - 1) as nat) {
            Ok(p) => step(p, tokens, numbers, n - 1),
            Err(e) => Err(e),
        }
    }
}

/// The triangles that a list of tokens describes, or the first error met.
/// Vertices that are still pending at the end are dropped.
pub open spec fn parse(tokens: Seq<Seq<char>>, numbers: Seq<Option<Scalar>>) -> Result<
    Seq<Triangle>,
    ParseError,
> {
    match scan(tokens, numbers, tokens.len()) {
        Ok(p) => Ok(p.triangles),
        Err(e) => Err(e),
    }
}

/// A result agrees with what `parse` describes: the same error, or a
/// well-formed mesh of the same triangles.
pub open spec fn agrees(r: Result<Mesh, ParseError>, expected: Result<Seq<Triangle>, ParseError>) -> bool {
    match (r, expected) {
        (Ok(mesh), Ok(triangles)) => mesh.triangles@ == triangles && mesh.wf(),
        (Err(e), Err(f)) => e == f,
        _ => false,
    }
}

/// Once reading has failed, reading further tokens reports the same error.
pub proof fn lemma_error_persists(
    tokens: Seq<Seq<char>>,
    numbers: Seq<Option<Scalar>>,
    n: nat,
    m: nat,
)
    requires
        n <= m,
        scan(tokens, numbers, n) is Err,
    ensures
        scan(tokens, numbers, m) == scan(tokens, numbers, n),
    decreases m,
{
    if n < m {
        lemma_error_persists(tokens, numbers, n, (m - 1) as nat);
    }
}

fn number_of(tokens: &Vec<Vec<char>>, numbers: &Vec<Option<Scalar>>, j: usize) -> (r: Option<
    Scalar,
>)
    ensures
        r == number_at(texts(tokens@), numbers@, j as int),
{
    if j < tokens.len() && j < numbers.len() && check_number_literal(&tokens[j]) {
        numbers[j]
    } else {
        None
    }
}

fn read_vertex(tokens: &Vec<Vec<char>>, numbers: &Vec<Option<Scalar>>, i: usize) -> (r: Option<
    Vertex,
>)
    requires
        i < tokens@.len(),
    ensures
        r == vertex_after(texts(tokens@), numbers@, i as int),
{
    if tokens.len() - i <= 3 {
        return None;
    }
    match (
        number_of(tokens, numbers, i + 1),
        number_of(tokens, numbers, i + 2),
        number_of(tokens, numbers, i + 3),
    ) {
        (Some(x), Some(y), Some(z)) => Some([x, y, z]),
        _ => None,
    }
}

/// Reads `tokens` in order; see [`Mesh::from_tokens`].
fn read_tokens(tokens: &Vec<Vec<char>>, numbers: &Vec<Option<Scalar>>) -> (r: Result<
    Mesh,
    ParseError,
>)
    ensures
        agrees(r, parse(texts(tokens@), numbers@)),
{
    let ghost words = texts(tokens@);
    let n = tokens.len();
    let mut triangles: Vec<Triangle> = Vec::new();
    let mut vertices: Vec<Vertex> = Vec::new();
    let mut used: usize = 0;
    let mut i: usize = 0;
    assert(vertices@.skip(0) =~= Seq::<Vertex>::empty());
    while i < n
        invariant
            i <= n,
            n == tokens@.len(),
            words == texts(tokens@),
            used <= vertices@.len(),
            scan(words, numbers@, i as nat) matches Ok(p) && p.pending == vertices@.skip(
                used as int,
            ) && p.triangles == triangles@,
            forall|k: int| 0 <= k < triangles@.len() ==> (#[trigger] triangles@[k]).wf(),
        decreases n - i,
    {
        let ghost before = Progress {
            pending: vertices@.skip(used as int),
            triangles: triangles@,
        };
        assert(words[i as int] == tokens@[i as int]@);
        if is_vertex_keyword(&tokens[i]) {
            match read_vertex(tokens, numbers, i) {
                Some(v) => {
                    vertices.push(v);
                    assert(vertices@.skip(used as int) =~= before.pending.push(v));
                },
                None => {
                    proof {
                        lemma_error_persists(words, numbers@, (i + 1) as nat, n as nat);
                    }
                    return Err(ParseError::NumericFormat);
                },
            }
        } else if is_endloop_keyword(&tokens[i]) {
            if vertices.len() - used < 3 {
                proof {
                    lemma_error_persists(words, numbers@, (i + 1) as nat, n as nat);
                }
                return Err(ParseError::StructuralUnderflow);
            }
            let t = Triangle::new([vertices[used], vertices[used + 1], vertices[used + 2]]);
            triangles.push(t);
            used += 3;
            assert(vertices@.skip(used as int) =~= before.pending.skip(3));
        }
        i += 1;
    }
    Ok(Mesh { triangles })
}

impl Mesh {
    /// Builds the mesh that `tokens` describe. `numbers[j]` is the number
    /// that `tokens[j]` denotes. It is consulted only for a token that
    /// follows a vertex keyword and is written as a number; where it is
    /// `None` or missing there, the token counts as malformed.
    ///
    /// The tokens are read in order and the first one that cannot be read
    /// decides the error. Without an error there is one triangle for each
    /// loop closed, in the order of the loops.
    pub fn from_tokens(tokens: &Vec<Vec<char>>, numbers: &Vec<Option<Scalar>>) -> (r: Result<
        Mesh,
        ParseError,
    >)
        ensures
            agrees(r, parse(texts(tokens@), numbers@)),
            r is Ok <==> well_formed(texts(tokens@), numbers@, tokens@.len()),
            r matches Ok(mesh) ==> mesh.triangles@.len() == occurrences(
                texts(tokens@),
                endloop_keyword(),
                tokens@.len(),
            ),
    {
        let r = read_tokens(tokens, numbers);
        proof {
            let words = texts(tokens@);
            lemma_scan_succeeds_on_well_formed(words, numbers@, words.len());
            if r is Ok {
                lemma_scan_is_a_queue(words, numbers@, words.len());
            }
        }
        r
    }

    /// Builds the mesh that the text of an ASCII STL file describes.
    /// `numbers[j]` is the number that the text's token `j` denotes, as for
    /// [`Mesh::from_tokens`].
    pub fn from_ascii(data: String, numbers: &Vec<Option<Scalar>>) -> (r: Result<Mesh, ParseError>)
        ensures
            agrees(r, parse(tokens_of(data@), numbers@)),
            r is Ok <==> well_formed(tokens_of(data@), numbers@, tokens_of(data@).len()),
            r matches Ok(mesh) ==> mesh.triangles@.len() == occurrences(
                tokens_of(data@),
                endloop_keyword(),
                tokens_of(data@).len(),
            ),
    {
        let tokens = tokenize(data.as_str());
        Mesh::from_tokens(&tokens, numbers)
    }
}

/// How many of the first `n` tokens are `word`.
pub open spec fn occurrences(tokens: Seq<Seq<char>>, word: Seq<char>, n: nat) -> nat
    decreases n,
{
    if n == 0 {
        0
    } else if tokens[n - 1] == word {
        occurrences(tokens, word, (n - 1) as nat) + 1
    } else {
        occurrences(tokens, word, (n - 1) as nat)
    }
}

/// The vertices that the first `n` tokens announce, in order.
pub open spec fn announced(tokens: Seq<Seq<char>>, numbers: Seq<Option<Scalar>>, n: nat) -> Seq<
    Vertex,
>
    decreases n,
{
    if n == 0 {
        Seq::empty()
    } else {
        let before = announced(tokens, numbers, (n - 1) as nat);
        if tokens[n - 1] == vertex_keyword() && vertex_after(tokens, numbers, n - 1) is Some {
            before.push(vertex_after(tokens, numbers, n - 1)->0)
        } else {
            before
        }
    }
}

/// The token at `i` can be read after the tokens before it: a vertex
/// keyword is followed by three numbers, and a loop is closed only when the
/// vertex keywords before it leave three vertices for it, three having gone
/// to each loop closed earlier.
pub open spec fn readable(tokens: Seq<Seq<char>>, numbers: Seq<Option<Scalar>>, i: int) -> bool {
    &&& tokens[i] == vertex_keyword() ==> vertex_after(tokens, numbers, i) is Some
    &&& tokens[i] == endloop_keyword() ==> occurrences(tokens, vertex_keyword(), i as nat) >= 3
        * occurrences(tokens, endloop_keyword(), i as nat) + 3
}

/// Each of the first `n` tokens can be read.
pub open spec fn well_formed(tokens: Seq<Seq<char>>, numbers: Seq<Option<Scalar>>, n: nat) -> bool {
    forall|i: int| 0 <= i < n ==> #[trigger] readable(tokens, numbers, i)
}

/// The keywords are two different tokens.
pub proof fn lemma_keywords_differ()
    ensures
        vertex_keyword() != endloop_keyword(),
{
    assert(vertex_keyword().len() == 6);
    assert(endloop_keyword().len() == 7);
}

/// Reading works as a queue. After `n` tokens read without error there is
/// one triangle for each loop closed, the triangle of the `k`-th loop is
/// built on the announced vertices `3k`, `3k + 1` and `3k + 2`, and the
/// announced vertices after those are pending.
pub proof fn lemma_scan_is_a_queue(tokens: Seq<Seq<char>>, numbers: Seq<Option<Scalar>>, n: nat)
    requires
        scan(tokens, numbers, n) is Ok,
    ensures
        ({
            let p = scan(tokens, numbers, n)->Ok_0;
            let all = announced(tokens, numbers, n);
            &&& p.triangles.len() == occurrences(tokens, endloop_keyword(), n)
            &&& all.len() == occurrences(tokens, vertex_keyword(), n)
            &&& 3 * p.triangles.len() <= all.len()
            &&& p.pending == all.skip(3 * (p.triangles.len() as int))
            &&& forall|k: int|
                0 <= k < p.triangles.len() ==> #[trigger] p.triangles[k] == Triangle::on(
                    [all[3 * k], all[3 * k + 1], all[3 * k + 2]],
                )
        }),
    decreases n,
{
    lemma_keywords_differ();
    let p = scan(tokens, numbers, n)->Ok_0;
    let all = announced(tokens, numbers, n);
    if n == 0 {
        assert(p.pending =~= all.skip(0));
    } else {
        let m = (n - 1) as nat;
        lemma_scan_is_a_queue(tokens, numbers, m);
        let q = scan(tokens, numbers, m)->Ok_0;
        let prior = announced(tokens, numbers, m);
        let done: int = 3 * (q.triangles.len() as int);
        if tokens[n - 1] == vertex_keyword() {
            let v = vertex_after(tokens, numbers, n - 1)->0;
            assert(all == prior.push(v));
            assert(p.pending =~= all.skip(done));
            assert forall|k: int| 0 <= k < p.triangles.len() implies #[trigger] p.triangles[k]
                == Triangle::on([all[3 * k], all[3 * k + 1], all[3 * k + 2]]) by {
                assert(all[3 * k] == prior[3 * k]);
                assert(all[3 * k + 1] == prior[3 * k + 1]);
                assert(all[3 * k + 2] == prior[3 * k + 2]);
            }
        } else if tokens[n - 1] == endloop_keyword() {
            assert(all == prior);
            assert(q.pending.len() >= 3);
            assert(q.pending[0] == prior[done]);
            assert(q.pending[1] == prior[done + 1]);
            assert(q.pending[2] == prior[done + 2]);
            assert(p.pending =~= all.skip(done + 3));
            assert forall|k: int| 0 <= k < p.triangles.len() implies #[trigger] p.triangles[k]
                == Triangle::on([all[3 * k], all[3 * k + 1], all[3 * k + 2]]) by {
                if k < q.triangles.len() {
                    assert(p.triangles[k] == q.triangles[k]);
                }
            }
        } else {
            assert(all == prior);
            assert(p == q);
        }
    }
}

/// Reading the first `n` tokens succeeds exactly when each of them can be
/// read.
pub proof fn lemma_scan_succeeds_on_well_formed(
    tokens: Seq<Seq<char>>,
    numbers: Seq<Option<Scalar>>,
    n: nat,
)
    ensures
        scan(tokens, numbers, n) is Ok <==> well_formed(tokens, numbers, n),
    decreases n,
{
    lemma_keywords_differ();
    if n > 0 {
        let m = (n - 1) as nat;
        lemma_scan_succeeds_on_well_formed(tokens, numbers, m);
        if scan(tokens, numbers, m) is Ok {
            lemma_scan_is_a_queue(tokens, numbers, m);
            let q = scan(tokens, numbers, m)->Ok_0;
            assert(q.pending.len() == announced(tokens, numbers, m).len() - 3
                * q.triangles.len());
            assert(scan(tokens, numbers, n) is Ok <==> readable(tokens, numbers, n - 1));
            if well_formed(tokens, numbers, n) {
                assert(readable(tokens, numbers, n - 1));
            }
            if scan(tokens, numbers, n) is Ok {
                assert forall|i: int| 0 <= i < n implies #[trigger] readable(
                    tokens,
                    numbers,
                    i,
                ) by {
                    if i < m {
                        assert(well_formed(tokens, numbers, m));
                    }
                }
            }
        } else {
            if well_formed(tokens, numbers, n) {
                assert forall|i: int| 0 <= i < m implies #[trigger] readable(
                    tokens,
                    numbers,
                    i,
                ) by {
                    assert(readable(tokens, numbers, i));
                }
            }
        }
    }
}

/// The first token that cannot be read decides the error: a vertex keyword
/// gives `NumericFormat`, a loop closed too early `StructuralUnderflow`.
pub proof fn lemma_first_fault_decides(
    tokens: Seq<Seq<char>>,
    numbers: Seq<Option<Scalar>>,
    i: nat,
)
    requires
        i < tokens.len(),
        well_formed(tokens, numbers, i),
        !readable(tokens, numbers, i as int),
    ensures
        parse(tokens, numbers) == Err::<Seq<Triangle>, ParseError>(
            if tokens[i as int] == vertex_keyword() {
                ParseError::NumericFormat
            } else {
                ParseError::StructuralUnderflow
            },
        ),
{
    lemma_keywords_differ();
    lemma_scan_succeeds_on_well_formed(tokens, numbers, i);
    lemma_scan_is_a_queue(tokens, numbers, i);
    let q = scan(tokens, numbers, i)->Ok_0;
    assert(q.pending.len() == announced(tokens, numbers, i).len() - 3 * q.triangles.len());
    assert(scan(tokens, numbers, i + 1) is Err);
    lemma_error_persists(tokens, numbers, i + 1, tokens.len());
}

/// A text of well-formed facets yields one triangle for each loop it
/// closes, in the order of the loops, each built on the three vertices
/// announced for it.
pub proof fn lemma_well_formed_text_parses(tokens: Seq<Seq<char>>, numbers: Seq<Option<Scalar>>)
    requires
        well_formed(tokens, numbers, tokens.len()),
    ensures
        parse(tokens, numbers) is Ok,
        ({
            let triangles = parse(tokens, numbers)->Ok_0;
            let all = announced(tokens, numbers, tokens.len());
            &&& triangles.len() == occurrences(tokens, endloop_keyword(), tokens.len())
            &&& 3 * triangles.len() <= all.len()
            &&& forall|k: int|
                0 <= k < triangles.len() ==> #[trigger] triangles[k] == Triangle::on(
                    [all[3 * k], all[3 * k + 1], all[3 * k + 2]],
                )
        }),
{
    lemma_scan_succeeds_on_well_formed(tokens, numbers, tokens.len());
    lemma_scan_is_a_queue(tokens, numbers, tokens.len());
}

/// Reading depends on the text and the numbers alone: two readings of the
/// same text with the same numbers give meshes of the same triangles, or the
/// same error.
pub proof fn lemma_parse_is_repeatable(
    text: Seq<char>,
    numbers: Seq<Option<Scalar>>,
    first: Result<Mesh, ParseError>,
    second: Result<Mesh, ParseError>,
)
    requires
        agrees(first, parse(tokens_of(text), numbers)),
        agrees(second, parse(tokens_of(text), numbers)),
    ensures
        match (first, second) {
            (Ok(a), Ok(b)) => a.triangles@ == b.triangles@,
            (Err(e), Err(f)) => e == f,
            _ => false,
        },
{
}

} // verus!

//! Meshes from Wavefront text: the triangles of a model, read off the
//! buffers that the `obj` parser builds.

use vstd::prelude::*;
use vstd::string::StringSliceAdditionalSpecFns;

verus! {

/// A triangle of a mesh, given by the places of its three corners in the
/// mesh's vertex buffer. A vertex carries a position and a normal.
#[derive(Clone, Copy, Debug, PartialEq, Eq, Structural)]
pub struct MeshTriangle {
    pub v1: usize,
    pub v2: usize,
    pub v3: usize,
}

/// Why an index buffer does not describe a list of triangles.
#[derive(Clone, Copy, Debug, PartialEq, Eq, Structural)]
pub enum ShapeError {
    /// The index at place `at` names no vertex.
    NoSuchVertex { at: usize },
    /// Every index names a vertex, but their number, `len`, is no multiple
    /// of three: the last triangle is incomplete.
    Incomplete { len: usize },
}

/// Whether each of the first `upto` indices names one of `vertices`
/// vertices.
pub open spec fn in_range(indices: Seq<u16>, upto: int, vertices: int) -> bool {
    forall|j: int| 0 <= j < upto ==> (#[trigger] indices[j]) < vertices
}

/// The triangles that an index buffer spells out: each three indices in a
/// row are the corners of one.
pub open spec fn triangles(indices: Seq<u16>) -> Seq<MeshTriangle> {
    Seq::new(
        (indices.len() / 3) as nat,
        |k: int|
            MeshTriangle {
                v1: indices[3 * k] as usize,
                v2: indices[3 * k + 1] as usize,
                v3: indices[3 * k + 2] as usize,
            },
    )
}

/// What an index buffer over `vertices` vertices amounts to: its
/// triangles, or the first index that names no vertex, or, failing that,
/// the length of a buffer that ends inside a triangle.
pub open spec fn shaped(
    indices: Seq<u16>,
    vertices: int,
    outcome: Result<Seq<MeshTriangle>, ShapeError>,
) -> bool {
    match outcome {
        Ok(tris) => {
            &&& in_range(indices, indices.len() as int, vertices)
            &&& indices.len() % 3 == 0
            &&& tris == triangles(indices)
        },
        Err(ShapeError::NoSuchVertex { at }) => {
            &&& at < indices.len()
            &&& indices[at as int] >= vertices
            &&& in_range(indices, at as int, vertices)
        },
        Err(ShapeError::Incomplete { len }) => {
            &&& in_range(indices, indices.len() as int, vertices)
            &&& indices.len() % 3 != 0
            &&& len == indices.len()
        },
    }
}

/// An index buffer amounts to one thing only.
pub proof fn lemma_shaped_once(
    indices: Seq<u16>,
    vertices: int,
    one: Result<Seq<MeshTriangle>, ShapeError>,
    other: Result<Seq<MeshTriangle>, ShapeError>,
)
    requires
        shaped(indices, vertices, one),
        shaped(indices, vertices, other),
    ensures
        one == other,
{
    if let Err(ShapeError::NoSuchVertex { at }) = one {
        assert(!in_range(indices, indices.len() as int, vertices));
        if let Err(ShapeError::NoSuchVertex { at: at2 }) = other {
            assert(at == at2);
        }
    }
    if let Err(ShapeError::NoSuchVertex { at }) = other {
        assert(!in_range(indices, indices.len() as int, vertices));
    }
}

/// Reads the triangles of a mesh off its index buffer, for a vertex buffer
/// of `vertices` entries.
pub fn triangulate(indices: &Vec<u16>, vertices: usize) -> (found: Result<
    Vec<MeshTriangle>,
    ShapeError,
>)
    ensures
        match found {
            Ok(tris) => shaped(indices@, vertices as int, Ok(tris@)),
            Err(e) => shaped(indices@, vertices as int, Err(e)),
        },
        found matches Ok(tris) ==> forall|k: int|
            0 <= k < tris.len() ==> {
                &&& (#[trigger] tris[k]).v1 < vertices
                &&& tris[k].v2 < vertices
                &&& tris[k].v3 < vertices
            },
{
    let n = indices.len();
    let mut k: usize = 0;
    while k < n
        invariant
            n == indices.len(),
            k <= n,
            in_range(indices@, k as int, vertices as int),
        decreases n - k,
    {
        if indices[k] as usize >= vertices {
            return Err(ShapeError::NoSuchVertex { at: k });
        }
        k = k + 1;
    }
    if n % 3 != 0 {
        return Err(ShapeError::Incomplete { len: n });
    }
    let count = n / 3;
    let mut tris: Vec<MeshTriangle> = Vec::new();
    let mut t: usize = 0;
    while t < count
        invariant
            n == indices.len(),
            count == n / 3,
            n % 3 == 0,
            t <= count,
            tris.len() == t,
            forall|j: int| 0 <= j < t ==> tris[j] == triangles(indices@)[j],
        decreases count - t,
    {
        let tri = MeshTriangle {
            v1: indices[3 * t] as usize,
            v2: indices[3 * t + 1] as usize,
            v3: indices[3 * t + 2] as usize,
        };
        tris.push(tri);
        t = t + 1;
    }
    assert(tris@ =~= triangles(indices@));
    Ok(tris)
}

/// Bytes that end a word of Wavefront text: white space, the `#` that
/// opens a comment, the backslash that joins two lines, and every byte
/// outside ASCII.
pub open spec fn separates(b: u8) -> bool {
    ||| 9 <= b <= 13
    ||| b == 32
    ||| b == 35
    ||| b == 92
    ||| b >= 128
}

/// Bytes that may stand on a line before its first word: white space but
/// for the line feed, and every byte outside ASCII.
pub open spec fn blank(b: u8) -> bool {
    ||| b == 9
    ||| 11 <= b <= 13
    ||| b == 32
    ||| b >= 128
}

/// Whether nothing but blanks stands between `at` and the start of its
/// line.
pub open spec fn leads(bytes: Seq<u8>, at: int) -> bool
    decreases at,
{
    if at <= 0 || at > bytes.len() {
        at == 0
    } else if bytes[at - 1] == 10 {
        true
    } else {
        blank(bytes[at - 1]) && leads(bytes, at - 1)
    }
}

/// Where the word that holds the byte at `from` ends: at the next byte
/// that separates, or with the text.
pub open spec fn word_end(bytes: Seq<u8>, from: int) -> int
    decreases bytes.len() - from,
{
    if from < 0 || from >= bytes.len() || separates(bytes[from]) {
        from
    } else {
        word_end(bytes, from + 1)
    }
}

/// The statements of the Wavefront format that the parser knows by name
/// but cannot read: free-form curves and surfaces, and some rendering
/// hints.
pub open spec fn unsupported(word: Seq<u8>) -> bool {
    ||| word == "cstype".spec_bytes()
    ||| word == "deg".spec_bytes()
    ||| word == "bmat".spec_bytes()
    ||| word == "step".spec_bytes()
    ||| word == "curv".spec_bytes()
    ||| word == "curv2".spec_bytes()
    ||| word == "surf".spec_bytes()
    ||| word == "parm".spec_bytes()
    ||| word == "trim".spec_bytes()
    ||| word == "hole".spec_bytes()
    ||| word == "scrv".spec_bytes()
    ||| word == "sp".spec_bytes()
    ||| word == "end".spec_bytes()
    ||| word == "con".spec_bytes()
    ||| word == "bevel".spec_bytes()
    ||| word == "c_interp".spec_bytes()
    ||| word == "d_interp".spec_bytes()
    ||| word == "lod".spec_bytes()
    ||| word == "shadow_obj".spec_bytes()
    ||| word == "trace_obj".spec_bytes()
    ||| word == "ctech".spec_bytes()
    ||| word == "stech".spec_bytes()
}

/// Whether the first word of a line begins at `from` and is one of the
/// unsupported statements.
pub open spec fn unsupported_at(bytes: Seq<u8>, from: int) -> bool {
    &&& 0 <= from < bytes.len()
    &&& leads(bytes, from)
    &&& !separates(bytes[from])
    &&& unsupported(bytes.subrange(from, word_end(bytes, from)))
}

/// Text in which no line begins with one of the unsupported statements.
pub open spec fn supported(bytes: Seq<u8>) -> bool {
    forall|from: int| 0 <= from < bytes.len() ==> !unsupported_at(bytes, from)
}

fn is_separator(b: u8) -> (yes: bool)
    ensures
        yes == separates(b),
{
    (9 <= b && b <= 13) || b == 32 || b == 35 || b == 92 || b >= 128
}

fn is_blank(b: u8) -> (yes: bool)
    ensures
        yes == blank(b),
{
    b == 9 || (11 <= b && b <= 13) || b == 32 || b >= 128
}

/// Whether the bytes from `from` to `to` spell `word`.
fn spells(bytes: &[u8], from: usize, to: usize, word: &str) -> (yes: bool)
    requires
        from <= to <= bytes.len(),
    ensures
        yes == (bytes@.subrange(from as int, to as int) == word.spec_bytes()),
{
    let letters = word.as_bytes();
    let ghost part = bytes@.subrange(from as int, to as int);
    if to - from != letters.len() {
        assert(part.len() != letters@.len());
        return false;
    }
    let mut k: usize = 0;
    while k < letters.len()
        invariant
            from <= to <= bytes.len(),
            to - from == letters.len(),
            k <= letters.len(),
            part == bytes@.subrange(from as int, to as int),
            letters@ == word.spec_bytes(),
            forall|j: int| 0 <= j < k ==> part[j] == letters[j],
        decreases letters.len() - k,
    {
        if bytes[from + k] != letters[k] {
            assert(part[k as int] != letters@[k as int]);
            return false;
        }
        k = k + 1;
    }
    assert(part =~= letters@);
    true
}

/// Whether the bytes from `from` to `to` spell an unsupported statement.
fn spells_unsupported(bytes: &[u8], from: usize, to: usize) -> (yes: bool)
    requires
        from <= to <= bytes.len(),
    ensures
        yes == unsupported(bytes@.subrange(from as int, to as int)),
{
    spells(bytes, from, to, "cstype") || spells(bytes, from, to, "deg") || spells(
        bytes,
        from,
        to,
        "bmat",
    ) || spells(bytes, from, to, "step") || spells(bytes, from, to, "curv") || spells(
        bytes,
        from,
        to,
        "curv2",
    ) || spells(bytes, from, to, "surf") || spells(bytes, from, to, "parm") || spells(
        bytes,
        from,
        to,
        "trim",
    ) || spells(bytes, from, to, "hole") || spells(bytes, from, to, "scrv") || spells(
        bytes,
        from,
        to,
        "sp",
    ) || spells(bytes, from, to, "end") || spells(bytes, from, to, "con") || spells(
        bytes,
        from,
        to,
        "bevel",
    ) || spells(bytes, from, to, "c_interp") || spells(bytes, from, to, "d_interp") || spells(
        bytes,
        from,
        to,
        "lod",
    ) || spells(bytes, from, to, "shadow_obj") || spells(bytes, from, to, "trace_obj")
        || spells(bytes, from, to, "ctech") || spells(bytes, from, to, "stech")
}

/// The place of the first line of `bytes` that begins with an unsupported
/// statement, if there is one: the place of the statement's first byte.
pub fn find_unsupported(bytes: &[u8]) -> (found: Option<usize>)
    ensures
        found is None <==> supported(bytes@),
        found matches Some(at) ==> {
            &&& unsupported_at(bytes@, at as int)
            &&& forall|j: int| 0 <= j < at ==> !unsupported_at(bytes@, j)
        },
{
    let n = bytes.len();
    let mut start: usize = 0;
    while start < n
        invariant
            n == bytes.len(),
            start <= n,
            start < n ==> leads(bytes@, start as int),
            forall|j: int| 0 <= j < start ==> !unsupported_at(bytes@, j),
        decreases n - start,
    {
        let mut i: usize = start;
        while i < n && is_blank(bytes[i])
            invariant
                n == bytes.len(),
                start <= i <= n,
                leads(bytes@, i as int),
                forall|j: int| 0 <= j < i ==> !unsupported_at(bytes@, j),
            decreases n - i,
        {
            i = i + 1;
        }
        if i == n {
            return None;
        }
        if !is_separator(bytes[i]) {
            let mut j: usize = i + 1;
            while j < n && !is_separator(bytes[j])
                invariant
                    n == bytes.len(),
                    i < j <= n,
                    word_end(bytes@, i as int) == word_end(bytes@, j as int),
                decreases n - j,
            {
                j = j + 1;
            }
            assert(word_end(bytes@, i as int) == j);
            if spells_unsupported(bytes, i, j) {
                assert(unsupported_at(bytes@, i as int));
                return Some(i);
            }
        }
        let mut j: usize = i;
        while j < n && bytes[j] != 10
            invariant
                n == bytes.len(),
                i <= j <= n,
                i < n,
                !blank(bytes[i as int]),
                forall|k: int| i < k <= j ==> !leads(bytes@, k),
            decreases n - j,
        {
            assert(j > i ==> !leads(bytes@, j as int));
            j = j + 1;
        }
        assert forall|k: int| 0 <= k <= j && k < n implies !unsupported_at(bytes@, k) by {}
        if j == n {
            return None;
        }
        start = j + 1;
    }
    None
}

/// A vertex as the `obj` crate builds it: a position and a normal.
#[verifier::external_type_specification]
#[verifier::external_body]
pub struct ExVertex(obj::Vertex);

/// The error of the `obj` crate's parser.
#[verifier::external_type_specification]
#[verifier::external_body]
pub struct ExObjError(obj::ObjError);

/// The vertex buffer and the index buffer that `obj::load_obj` builds from
/// `bytes`; `None` where it reports an error.
pub uninterp spec fn parsed(bytes: Seq<u8>) -> Option<(Seq<obj::Vertex>, Seq<u16>)>;

/// Calls `obj::load_obj` on the text and hands out the two buffers of the
/// object it returns. The parser stops the program on the statements it
/// cannot read; it takes a statement's name from the first word of a line,
/// so text in which no line begins with one of them is read to the end or
/// refused with an error. What comes back depends on the text alone.
#[verifier::external_body]
fn parse(bytes: &[u8]) -> (found: Result<(Vec<obj::Vertex>, Vec<u16>), obj::ObjError>)
    requires
        supported(bytes@),
    ensures
        found is Ok <==> parsed(bytes@) is Some,
        found matches Ok(buffers) ==> parsed(bytes@) == Some((buffers.0@, buffers.1@)),
{
    let object: obj::Obj<obj::Vertex, u16> = obj::load_obj(bytes)?;
    Ok((object.vertices, object.indices))
}

/// A loaded mesh: its vertices and the triangles between them.
#[derive(Debug)]
pub struct MeshData {
    pub vertices: Vec<obj::Vertex>,
    pub triangles: Vec<MeshTriangle>,
}

/// Why a text is no mesh.
#[derive(Debug)]
pub enum LoadError {
    /// The line whose first word begins at byte `at` is a statement that
    /// the parser cannot read.
    Unsupported { at: usize },
    /// The parser refused the text.
    Parse(obj::ObjError),
    /// The parsed buffers do not spell out triangles.
    Shape(ShapeError),
}

/// Loads a mesh from Wavefront text. Text in which a line begins with an
/// unsupported statement is refused before it reaches the parser, with the
/// place of the first such statement. Text that the parser refuses is refused with the
/// parser's error. Otherwise the mesh has the vertices that the parser
/// built and the triangles that its index buffer spells out.
pub fn load_mesh(bytes: &[u8]) -> (loaded: Result<MeshData, LoadError>)
    ensures
        match loaded {
            Err(LoadError::Unsupported { at }) => {
                &&& unsupported_at(bytes@, at as int)
                &&& forall|j: int| 0 <= j < at ==> !unsupported_at(bytes@, j)
            },
            Err(LoadError::Parse(_)) => supported(bytes@) && parsed(bytes@) is None,
            Err(LoadError::Shape(e)) => {
                &&& supported(bytes@)
                &&& parsed(bytes@) matches Some(buffers)
                &&& shaped(buffers.1, buffers.0.len() as int, Err(e))
            },
            Ok(mesh) => {
                &&& supported(bytes@)
                &&& parsed(bytes@) matches Some(buffers)
                &&& mesh.vertices@ == buffers.0
                &&& shaped(buffers.1, buffers.0.len() as int, Ok(mesh.triangles@))
                &&& forall|k: int|
                    0 <= k < mesh.triangles.len() ==> {
                        &&& (#[trigger] mesh.triangles[k]).v1 < mesh.vertices.len()
                        &&& mesh.triangles[k].v2 < mesh.vertices.len()
                        &&& mesh.triangles[k].v3 < mesh.vertices.len()
                    }
            },
        },
{
    if let Some(at) = find_unsupported(bytes) {
        return Err(LoadError::Unsupported { at });
    }
    let (vertices, indices) = match parse(bytes) {
        Ok(buffers) => buffers,
        Err(e) => {
            return Err(LoadError::Parse(e));
        },
    };
    match triangulate(&indices, vertices.len()) {
        Ok(triangles) => Ok(MeshData { vertices, triangles }),
        Err(e) => Err(LoadError::Shape(e)),
    }
}

} // verus!

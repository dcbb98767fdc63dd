//! The mesh import format and its parser.
//!
//! A mesh is imported from a line-oriented ASCII description: a line whose
//! first space-separated token is `v` carries three coordinate fields, a line
//! whose first token is `f` carries three 1-based vertex indices (trailing
//! slash-separated sub-fields of an index are ignored), and every other line
//! is skipped. The parser checks the structure — field counts, index syntax,
//! and that every face references a vertex that has already appeared — and
//! hands the coordinate fields through verbatim; the front end converts them
//! to floating point and builds the triangles and the bounding box.

use vstd::prelude::*;
use vstd::string::StringSliceAdditionalSpecFns;

verus! {

/// Byte values of the ASCII characters the format is built from.
pub const SLASH: u8 = 47;

pub const PLUS: u8 = 43;

pub const DIGIT_ZERO: u8 = 48;

pub const DIGIT_NINE: u8 = 57;

/// The index of the first occurrence of `b` in `s`, or `s.len()` if `b` does
/// not occur.
pub open spec fn find_byte(s: Seq<u8>, b: u8) -> int
    decreases s.len(),
{
    if s.len() == 0 {
        0
    } else if s[0] == b {
        0
    } else {
        1 + find_byte(s.skip(1), b)
    }
}

proof fn lemma_find_byte(s: Seq<u8>, b: u8)
    ensures
        0 <= find_byte(s, b) <= s.len(),
        forall|k: int| 0 <= k < find_byte(s, b) ==> s[k] != b,
        find_byte(s, b) < s.len() ==> s[find_byte(s, b)] == b,
    decreases s.len(),
{
    if s.len() != 0 && s[0] != b {
        lemma_find_byte(s.skip(1), b);
        assert(forall|k: int| 0 < k < find_byte(s, b) ==> s[k] == s.skip(1)[k - 1]);
    }
}

/// `i` is where the first occurrence of `b` sits (or `s.len()`) exactly when
/// nothing before `i` is `b` and `i` itself is `b` or the end.
proof fn lemma_find_byte_unique(s: Seq<u8>, b: u8, i: int)
    requires
        0 <= i <= s.len(),
        forall|k: int| 0 <= k < i ==> s[k] != b,
        i < s.len() ==> s[i] == b,
    ensures
        find_byte(s, b) == i,
{
    lemma_find_byte(s, b);
}

/// The digit part of a face index token: everything before the first `/`,
/// less an optional leading `+` sign.
pub open spec fn index_digits(t: Seq<u8>) -> Seq<u8> {
    let p = t.take(find_byte(t, SLASH));
    if p.len() > 0 && p[0] == PLUS {
        p.skip(1)
    } else {
        p
    }
}

/// A non-empty run of decimal digits.
pub open spec fn is_digits(s: Seq<u8>) -> bool {
    s.len() > 0 && forall|i: int| 0 <= i < s.len() ==> DIGIT_ZERO <= #[trigger] s[i] <= DIGIT_NINE
}

/// The value of a run of decimal digits, most significant first.
pub open spec fn digits_value(s: Seq<u8>) -> int
    decreases s.len(),
{
    if s.len() == 0 {
        0
    } else {
        digits_value(s.drop_last()) * 10 + s.last() - DIGIT_ZERO
    }
}

/// What a face index token denotes: the 1-based index it spells, shifted to
/// 0-based; or nothing if the digit part is empty, non-numeric, too large for
/// the machine, or spells the invalid index zero.
pub open spec fn vertex_index_of(t: Seq<u8>) -> Option<usize> {
    let d = index_digits(t);
    if is_digits(d) && 1 <= digits_value(d) <= usize::MAX {
        Some((digits_value(d) - 1) as usize)
    } else {
        None
    }
}

proof fn lemma_digits_value_nonneg(s: Seq<u8>)
    requires
        forall|i: int| 0 <= i < s.len() ==> DIGIT_ZERO <= #[trigger] s[i] <= DIGIT_NINE,
    ensures
        digits_value(s) >= 0,
    decreases s.len(),
{
    if s.len() != 0 {
        lemma_digits_value_nonneg(s.drop_last());
    }
}

/// Reading more digits never makes the value smaller.
proof fn lemma_digits_value_prefix_le(s: Seq<u8>, j: int)
    requires
        0 <= j <= s.len(),
        forall|i: int| 0 <= i < s.len() ==> DIGIT_ZERO <= #[trigger] s[i] <= DIGIT_NINE,
    ensures
        digits_value(s.take(j)) <= digits_value(s),
    decreases s.len() - j,
{
    if j == s.len() {
        assert(s.take(j) =~= s);
    } else {
        assert(s.take(j + 1).drop_last() =~= s.take(j));
        lemma_digits_value_nonneg(s.take(j));
        assert(digits_value(s.take(j + 1)) == digits_value(s.take(j)) * 10 + s[j] - DIGIT_ZERO);
        lemma_digits_value_prefix_le(s, j + 1);
    }
}

/// Parse one face index token from its bytes.
fn parse_index_token(t: &[u8]) -> (r: Option<usize>)
    ensures
        r == vertex_index_of(t@),
{
    let mut end: usize = 0;
    while end < t.len() && t[end] != SLASH
        invariant
            0 <= end <= t@.len(),
            forall|k: int| 0 <= k < end ==> t@[k] != SLASH,
        decreases t@.len() - end,
    {
        end = end + 1;
    }
    proof {
        lemma_find_byte_unique(t@, SLASH, end as int);
    }
    let mut start: usize = 0;
    if end > 0 && t[0] == PLUS {
        start = 1;
    }
    let ghost d: Seq<u8> = index_digits(t@);
    proof {
        assert(t@.take(end as int) =~= t@.subrange(0, end as int));
        if start == 1 {
            assert(d =~= t@.subrange(1, end as int));
        } else {
            assert(d =~= t@.subrange(0, end as int));
        }
    }
    if start == end {
        return None;
    }
    let mut acc: usize = 0;
    let mut i: usize = start;
    while i < end
        invariant
            start <= i <= end <= t@.len(),
            start < end,
            d == index_digits(t@),
            d == t@.subrange(start as int, end as int),
            forall|k: int| start <= k < i ==> DIGIT_ZERO <= #[trigger] t@[k] <= DIGIT_NINE,
            acc == digits_value(t@.subrange(start as int, i as int)),
        decreases end - i,
    {
        let c = t[i];
        if c < DIGIT_ZERO || c > DIGIT_NINE {
            proof {
                assert(d[i - start] == t@[i as int]);
            }
            return None;
        }
        let digit: usize = (c - DIGIT_ZERO) as usize;
        if acc > (usize::MAX - digit) / 10 {
            // The spelled value cannot fit in the machine word.
            proof {
                assert(t@.subrange(start as int, i + 1).drop_last() =~= t@.subrange(
                    start as int,
                    i as int,
                ));
                assert(digits_value(t@.subrange(start as int, i + 1)) == acc * 10 + digit);
                assert(acc * 10 + digit > usize::MAX) by (nonlinear_arith)
                    requires
                        acc > (usize::MAX - digit) / 10,
                        0 <= digit <= 9,
                ;
                if is_digits(d) {
                    assert(t@.subrange(start as int, i + 1) =~= d.take(i + 1 - start));
                    lemma_digits_value_prefix_le(d, i + 1 - start);
                }
            }
            return None;
        }
        proof {
            assert(t@.subrange(start as int, i + 1).drop_last() =~= t@.subrange(
                start as int,
                i as int,
            ));
            assert(acc * 10 + digit <= usize::MAX) by (nonlinear_arith)
                requires
                    acc <= (usize::MAX - digit) / 10,
                    0 <= digit <= 9,
            ;
        }
        acc = acc * 10 + digit;
        i = i + 1;
    }
    proof {
        assert(d =~= t@.subrange(start as int, end as int));
        assert(is_digits(d));
        assert(acc == digits_value(d));
    }
    if acc == 0 {
        None
    } else {
        Some(acc - 1)
    }
}

/// Read one face index field: take what stands before the first `/`, read
/// it as a 1-based decimal index, and shift it to 0-based; a malformed or
/// zero index is a fatal import error, reported as `None`.
pub fn parse_vertex_index(s: &str) -> (r: Option<usize>)
    ensures
        r == vertex_index_of(s.spec_bytes()),
{
    parse_index_token(s.as_bytes())
}

/// Byte values of the line and field separators.
pub const NEWLINE: u8 = 10;

pub const CARRIAGE_RETURN: u8 = 13;

pub const SPACE: u8 = 32;

/// One line segment, less the carriage return a CRLF line ending leaves.
pub open spec fn strip_cr(l: Seq<u8>) -> Seq<u8> {
    if l.len() > 0 && l.last() == CARRIAGE_RETURN {
        l.drop_last()
    } else {
        l
    }
}

/// The lines of the description, as the importer reads them: a segment ends
/// at each newline, a final segment without a newline is kept as it stands,
/// and a carriage return before a newline is dropped.
pub open spec fn split_lines(s: Seq<u8>) -> Seq<Seq<u8>>
    decreases s.len(),
{
    if s.len() == 0 {
        Seq::empty()
    } else {
        let i = find_byte(s, NEWLINE);
        if 0 <= i < s.len() {
            seq![strip_cr(s.take(i))] + split_lines(s.skip(i + 1))
        } else {
            seq![s]
        }
    }
}

/// The fields of one line: split at every single space, empty fields kept,
/// so there is always at least one field.
pub open spec fn split_fields(s: Seq<u8>) -> Seq<Seq<u8>>
    decreases s.len(),
{
    let i = find_byte(s, SPACE);
    if 0 <= i < s.len() {
        seq![s.take(i)] + split_fields(s.skip(i + 1))
    } else {
        seq![s]
    }
}

/// Split the description into its lines.
fn split_lines_exec(content: &[u8]) -> (lines: Vec<Vec<u8>>)
    ensures
        lines@.map_values(|l: Vec<u8>| l@) == split_lines(content@),
{
    let mut lines: Vec<Vec<u8>> = Vec::new();
    let mut pos: usize = 0;
    proof {
        assert(content@.skip(0) =~= content@);
        assert(lines@.map_values(|l: Vec<u8>| l@) + split_lines(content@) =~= split_lines(
            content@,
        ));
    }
    while pos < content.len()
        invariant
            pos <= content@.len(),
            split_lines(content@) == lines@.map_values(|l: Vec<u8>| l@) + split_lines(
                content@.skip(pos as int),
            ),
        decreases content@.len() - pos,
    {
        let mut j: usize = pos;
        while j < content.len() && content[j] != NEWLINE
            invariant
                pos <= j <= content@.len(),
                forall|k: int| pos <= k < j ==> content@[k] != NEWLINE,
            decreases content@.len() - j,
        {
            j = j + 1;
        }
        let ghost suffix: Seq<u8> = content@.skip(pos as int);
        proof {
            assert forall|k: int| 0 <= k < j - pos implies suffix[k] != NEWLINE by {
                assert(suffix[k] == content@[pos + k]);
            }
            if (j as int) < content@.len() {
                assert(suffix[j - pos] == content@[j as int]);
            }
            lemma_find_byte_unique(suffix, NEWLINE, j - pos);
        }
        let mut line_end: usize = j;
        if j < content.len() {
            // The segment is newline-terminated: drop a carriage return
            // standing right before the newline.
            if j > pos && content[j - 1] == CARRIAGE_RETURN {
                line_end = j - 1;
            }
            let line = vstd::slice::slice_to_vec(vstd::slice::slice_subrange(content, pos, line_end));
            proof {
                assert(suffix.take(j - pos) =~= content@.subrange(pos as int, j as int));
                if line_end < j {
                    assert(suffix.take(j - pos).drop_last() =~= content@.subrange(
                        pos as int,
                        line_end as int,
                    ));
                }
                assert(strip_cr(suffix.take(j - pos)) == content@.subrange(
                    pos as int,
                    line_end as int,
                ));
                assert(suffix.skip(j - pos + 1) =~= content@.skip(j + 1));
                assert(lines@.push(line).map_values(|l: Vec<u8>| l@) =~= lines@.map_values(
                    |l: Vec<u8>| l@,
                ).push(line@));
            }
            lines.push(line);
            pos = j + 1;
        } else {
            let line = vstd::slice::slice_to_vec(vstd::slice::slice_subrange(content, pos, line_end));
            proof {
                assert(suffix =~= content@.subrange(pos as int, line_end as int));
                assert(lines@.push(line).map_values(|l: Vec<u8>| l@) =~= lines@.map_values(
                    |l: Vec<u8>| l@,
                ).push(line@));
                assert(content@.skip(line_end as int) =~= Seq::<u8>::empty());
            }
            lines.push(line);
            pos = line_end;
            proof {
                assert(split_lines(content@.skip(pos as int)) =~= Seq::<Seq<u8>>::empty());
            }
        }
    }
    proof {
        assert(content@.skip(pos as int) =~= Seq::<u8>::empty());
        assert(split_lines(content@.skip(pos as int)) =~= Seq::<Seq<u8>>::empty());
        assert(lines@.map_values(|l: Vec<u8>| l@) =~= lines@.map_values(|l: Vec<u8>| l@)
            + split_lines(content@.skip(pos as int)));
    }
    lines
}

/// Split one line into its space-separated fields.
fn split_fields_exec(line: &[u8]) -> (fields: Vec<Vec<u8>>)
    ensures
        fields@.map_values(|t: Vec<u8>| t@) == split_fields(line@),
        fields@.len() >= 1,
{
    let mut fields: Vec<Vec<u8>> = Vec::new();
    let mut pos: usize = 0;
    proof {
        assert(line@.skip(0) =~= line@);
        assert(fields@.map_values(|t: Vec<u8>| t@) + split_fields(line@) =~= split_fields(line@));
    }
    loop
        invariant_except_break
            pos <= line@.len(),
            split_fields(line@) == fields@.map_values(|t: Vec<u8>| t@) + split_fields(
                line@.skip(pos as int),
            ),
        ensures
            fields@.map_values(|t: Vec<u8>| t@) == split_fields(line@),
            fields@.len() >= 1,
        decreases line@.len() - pos,
    {
        let mut j: usize = pos;
        while j < line.len() && line[j] != SPACE
            invariant
                pos <= j <= line@.len(),
                forall|k: int| pos <= k < j ==> line@[k] != SPACE,
            decreases line@.len() - j,
        {
            j = j + 1;
        }
        let ghost suffix: Seq<u8> = line@.skip(pos as int);
        proof {
            assert forall|k: int| 0 <= k < j - pos implies suffix[k] != SPACE by {
                assert(suffix[k] == line@[pos + k]);
            }
            if (j as int) < line@.len() {
                assert(suffix[j - pos] == line@[j as int]);
            }
            lemma_find_byte_unique(suffix, SPACE, j - pos);
        }
        let field = vstd::slice::slice_to_vec(vstd::slice::slice_subrange(line, pos, j));
        proof {
            assert(suffix.take(j - pos) =~= line@.subrange(pos as int, j as int));
            assert(fields@.push(field).map_values(|t: Vec<u8>| t@) =~= fields@.map_values(
                |t: Vec<u8>| t@,
            ).push(field@));
        }
        if j < line.len() {
            proof {
                assert(suffix.skip(j - pos + 1) =~= line@.skip(j + 1));
            }
            fields.push(field);
            pos = j + 1;
        } else {
            proof {
                assert(suffix =~= line@.subrange(pos as int, j as int));
            }
            fields.push(field);
            break;
        }
    }
    fields
}

/// Byte values of the recognised line tags.
pub const TAG_VERTEX: u8 = 118;

pub const TAG_FACE: u8 = 102;

/// One imported vertex, as its three verbatim coordinate fields.
pub ghost struct VertexModel {
    pub x: Seq<u8>,
    pub y: Seq<u8>,
    pub z: Seq<u8>,
}

/// One triangular face, as three 0-based vertex indices.
pub ghost struct FaceModel {
    pub a: usize,
    pub b: usize,
    pub c: usize,
}

/// Everything a mesh description denotes.
pub ghost struct MeshModel {
    pub vertices: Seq<VertexModel>,
    pub faces: Seq<FaceModel>,
}

/// What one line contributes to the mesh.
pub ghost enum LineModel {
    Vertex(VertexModel),
    Face(FaceModel),
    Skip,
}

/// The fatal import errors.
#[derive(Debug, Clone, Copy, PartialEq, Eq, Structural)]
pub enum MeshError {
    /// A vertex line without exactly three coordinate fields.
    VertexFieldCount,
    /// A face line without exactly three index fields.
    FaceFieldCount,
    /// A face index field that does not spell a positive machine-sized
    /// decimal index.
    InvalidFaceIndex,
    /// A face index pointing at a vertex the description has not defined yet.
    FaceIndexOutOfRange,
}

/// What one line means, given how many vertices stand before it: a vertex
/// line must carry exactly three fields, a face line exactly three
/// well-formed indices of already-defined vertices, and any other line is
/// skipped.
pub open spec fn classify_line(line: Seq<u8>, vertex_count: nat) -> Result<LineModel, MeshError> {
    let fields = split_fields(line);
    if fields[0] == seq![TAG_VERTEX] {
        if fields.len() == 4 {
            Ok(LineModel::Vertex(VertexModel { x: fields[1], y: fields[2], z: fields[3] }))
        } else {
            Err(MeshError::VertexFieldCount)
        }
    } else if fields[0] == seq![TAG_FACE] {
        if fields.len() != 4 {
            Err(MeshError::FaceFieldCount)
        } else if vertex_index_of(fields[1]) is None || vertex_index_of(fields[2]) is None
            || vertex_index_of(fields[3]) is None {
            Err(MeshError::InvalidFaceIndex)
        } else {
            let a = vertex_index_of(fields[1])->Some_0;
            let b = vertex_index_of(fields[2])->Some_0;
            let c = vertex_index_of(fields[3])->Some_0;
            if a < vertex_count && b < vertex_count && c < vertex_count {
                Ok(LineModel::Face(FaceModel { a, b, c }))
            } else {
                Err(MeshError::FaceIndexOutOfRange)
            }
        }
    } else {
        Ok(LineModel::Skip)
    }
}

/// Fold the lines over an already-accumulated mesh.
pub open spec fn parse_lines(lines: Seq<Seq<u8>>, acc: MeshModel) -> Result<MeshModel, MeshError>
    decreases lines.len(),
{
    if lines.len() == 0 {
        Ok(acc)
    } else {
        match classify_line(lines[0], acc.vertices.len()) {
            Ok(LineModel::Vertex(v)) => parse_lines(
                lines.skip(1),
                MeshModel { vertices: acc.vertices.push(v), faces: acc.faces },
            ),
            Ok(LineModel::Face(f)) => parse_lines(
                lines.skip(1),
                MeshModel { vertices: acc.vertices, faces: acc.faces.push(f) },
            ),
            Ok(LineModel::Skip) => parse_lines(lines.skip(1), acc),
            Err(e) => Err(e),
        }
    }
}

/// The mesh with no vertices and no faces.
pub open spec fn empty_mesh() -> MeshModel {
    MeshModel { vertices: Seq::empty(), faces: Seq::empty() }
}

/// What a whole description denotes: the fold of all its lines, starting
/// from the empty mesh.
pub open spec fn mesh_of(s: Seq<u8>) -> Result<MeshModel, MeshError> {
    parse_lines(split_lines(s), empty_mesh())
}

/// One imported vertex: its three coordinate fields, verbatim, for the
/// front end to read as floating-point numbers.
#[derive(Debug)]
pub struct VertexRecord {
    pub x: Vec<u8>,
    pub y: Vec<u8>,
    pub z: Vec<u8>,
}

impl View for VertexRecord {
    type V = VertexModel;

    open spec fn view(&self) -> VertexModel {
        VertexModel { x: self.x@, y: self.y@, z: self.z@ }
    }
}

/// One triangular face: three 0-based indices into the vertex list.
#[derive(Debug, Clone, Copy, PartialEq, Eq, Structural)]
pub struct FaceRecord {
    pub a: usize,
    pub b: usize,
    pub c: usize,
}

impl View for FaceRecord {
    type V = FaceModel;

    open spec fn view(&self) -> FaceModel {
        FaceModel { a: self.a, b: self.b, c: self.c }
    }
}

/// A parsed mesh description.
#[derive(Debug)]
pub struct MeshData {
    pub vertices: Vec<VertexRecord>,
    pub faces: Vec<FaceRecord>,
}

impl View for MeshData {
    type V = MeshModel;

    open spec fn view(&self) -> MeshModel {
        MeshModel {
            vertices: self.vertices@.map_values(|v: VertexRecord| v@),
            faces: self.faces@.map_values(|f: FaceRecord| f@),
        }
    }
}

/// Every face references only vertices that exist.
pub open spec fn faces_in_range(m: MeshModel) -> bool {
    forall|i: int|
        0 <= i < m.faces.len() ==> (#[trigger] m.faces[i]).a < m.vertices.len()
            && m.faces[i].b < m.vertices.len() && m.faces[i].c < m.vertices.len()
}

proof fn lemma_parse_lines_faces_in_range(lines: Seq<Seq<u8>>, acc: MeshModel)
    requires
        faces_in_range(acc),
    ensures
        parse_lines(lines, acc) is Ok ==> faces_in_range(parse_lines(lines, acc)->Ok_0),
    decreases lines.len(),
{
    if lines.len() != 0 {
        match classify_line(lines[0], acc.vertices.len()) {
            Ok(LineModel::Vertex(v)) => {
                let next = MeshModel { vertices: acc.vertices.push(v), faces: acc.faces };
                assert(faces_in_range(next));
                lemma_parse_lines_faces_in_range(lines.skip(1), next);
            },
            Ok(LineModel::Face(f)) => {
                let next = MeshModel { vertices: acc.vertices, faces: acc.faces.push(f) };
                assert(faces_in_range(next));
                lemma_parse_lines_faces_in_range(lines.skip(1), next);
            },
            Ok(LineModel::Skip) => {
                lemma_parse_lines_faces_in_range(lines.skip(1), acc);
            },
            Err(_) => {},
        }
    }
}

/// A description that parses at all references only vertices it defines:
/// the importer may index its vertex list with any face index it returns.
pub proof fn lemma_mesh_faces_in_range(s: Seq<u8>)
    ensures
        mesh_of(s) is Ok ==> faces_in_range(mesh_of(s)->Ok_0),
{
    lemma_parse_lines_faces_in_range(split_lines(s), empty_mesh());
}

/// Parse a whole mesh description, exactly as `mesh_of` reads it: the
/// verbatim coordinate fields of every vertex line, the 0-based indices of
/// every face line, or the first fatal error.
pub fn parse_mesh(content: &[u8]) -> (r: Result<MeshData, MeshError>)
    ensures
        r is Ok <==> mesh_of(content@) is Ok,
        r is Ok ==> r->Ok_0@ == mesh_of(content@)->Ok_0,
        r is Err ==> r->Err_0 == mesh_of(content@)->Err_0,
        r is Ok ==> faces_in_range(r->Ok_0@),
{
    let lines = split_lines_exec(content);
    let ghost all: Seq<Seq<u8>> = split_lines(content@);
    let mut vertices: Vec<VertexRecord> = Vec::new();
    let mut faces: Vec<FaceRecord> = Vec::new();
    let mut li: usize = 0;
    proof {
        assert(all.skip(0) =~= all);
        assert(vertices@.map_values(|v: VertexRecord| v@) =~= Seq::<VertexModel>::empty());
        assert(faces@.map_values(|f: FaceRecord| f@) =~= Seq::<FaceModel>::empty());
    }
    while li < lines.len()
        invariant
            li <= lines@.len(),
            lines@.map_values(|l: Vec<u8>| l@) == all,
            all == split_lines(content@),
            mesh_of(content@) == parse_lines(
                all.skip(li as int),
                (MeshModel {
                    vertices: vertices@.map_values(|v: VertexRecord| v@),
                    faces: faces@.map_values(|f: FaceRecord| f@),
                }),
            ),
        decreases lines@.len() - li,
    {
        let ghost acc: MeshModel = MeshModel {
            vertices: vertices@.map_values(|v: VertexRecord| v@),
            faces: faces@.map_values(|f: FaceRecord| f@),
        };
        proof {
            assert(all.skip(li as int).len() == all.len() - li);
            assert(all.skip(li as int)[0] == all[li as int]);
            assert(all.skip(li as int).skip(1) =~= all.skip(li + 1));
            assert(all[li as int] == lines@.map_values(|l: Vec<u8>| l@)[li as int]);
        }
        let ghost line_spec: Seq<u8> = all[li as int];
        let mut fields = split_fields_exec(lines[li].as_slice());
        let tag_is_vertex = fields[0].len() == 1 && fields[0][0] == TAG_VERTEX;
        let tag_is_face = !tag_is_vertex && fields[0].len() == 1 && fields[0][0] == TAG_FACE;
        proof {
            let sf = split_fields(line_spec);
            assert(fields@.map_values(|t: Vec<u8>| t@)[0] == sf[0]);
            if tag_is_vertex {
                assert(fields@[0]@ =~= seq![TAG_VERTEX]);
            } else {
                assert(seq![TAG_VERTEX].len() == 1);
                assert(seq![TAG_VERTEX][0] == TAG_VERTEX);
                assert(fields@[0]@ != seq![TAG_VERTEX]);
            }
            if tag_is_face {
                assert(fields@[0]@ =~= seq![TAG_FACE]);
            } else if !tag_is_vertex {
                assert(seq![TAG_FACE].len() == 1);
                assert(seq![TAG_FACE][0] == TAG_FACE);
                assert(fields@[0]@ != seq![TAG_FACE]);
            }
        }
        if tag_is_vertex {
            if fields.len() != 4 {
                return Err(MeshError::VertexFieldCount);
            }
            // The three pops cannot miss: the field count was just checked.
            let z = match fields.pop() {
                Some(t) => t,
                None => {
                    return Err(MeshError::VertexFieldCount);
                },
            };
            let y = match fields.pop() {
                Some(t) => t,
                None => {
                    return Err(MeshError::VertexFieldCount);
                },
            };
            let x = match fields.pop() {
                Some(t) => t,
                None => {
                    return Err(MeshError::VertexFieldCount);
                },
            };
            let record = VertexRecord { x, y, z };
            proof {
                let sf = split_fields(line_spec);
                assert(record@ == (VertexModel { x: sf[1], y: sf[2], z: sf[3] }));
                assert(vertices@.push(record).map_values(|v: VertexRecord| v@) =~= vertices@
                    .map_values(|v: VertexRecord| v@).push(record@));
            }
            vertices.push(record);
        } else if tag_is_face {
            if fields.len() != 4 {
                return Err(MeshError::FaceFieldCount);
            }
            let a = match parse_index_token(fields[1].as_slice()) {
                Some(i) => i,
                None => {
                    return Err(MeshError::InvalidFaceIndex);
                },
            };
            let b = match parse_index_token(fields[2].as_slice()) {
                Some(i) => i,
                None => {
                    return Err(MeshError::InvalidFaceIndex);
                },
            };
            let c = match parse_index_token(fields[3].as_slice()) {
                Some(i) => i,
                None => {
                    return Err(MeshError::InvalidFaceIndex);
                },
            };
            if !(a < vertices.len() && b < vertices.len() && c < vertices.len()) {
                return Err(MeshError::FaceIndexOutOfRange);
            }
            let record = FaceRecord { a, b, c };
            proof {
                assert(faces@.push(record).map_values(|f: FaceRecord| f@) =~= faces@.map_values(
                    |f: FaceRecord| f@,
                ).push(record@));
            }
            faces.push(record);
        }
        li = li + 1;
    }
    proof {
        assert(all.skip(li as int) =~= Seq::<Seq<u8>>::empty());
        lemma_mesh_faces_in_range(content@);
    }
    Ok(MeshData { vertices, faces })
}

} // verus!

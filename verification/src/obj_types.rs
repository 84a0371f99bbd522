//! The data a Wavefront OBJ model file carries.

use crate::decimal::Decimal;
use crate::math::Vec4;
use vstd::prelude::*;

verus! {

/// A texture coordinate (`vt` statement).
#[derive(Clone, Copy, Debug, PartialEq, Eq, Structural)]
pub struct VerticeTexture {
    pub u: Decimal,
    pub v: Decimal,
    pub w: Decimal,
}

impl VerticeTexture {
    /// The coordinate with the given components.
    pub fn new(u: Decimal, v: Decimal, w: Decimal) -> (r: VerticeTexture)
        ensures
            r == (VerticeTexture { u, v, w }),
    {
        VerticeTexture { u, v, w }
    }
}

/// A vertex normal (`vn` statement).
#[derive(Clone, Copy, Debug, PartialEq, Eq, Structural)]
pub struct VerticeNormal {
    pub x: Decimal,
    pub y: Decimal,
    pub z: Decimal,
}

impl VerticeNormal {
    /// The normal with the given components.
    pub fn new(x: Decimal, y: Decimal, z: Decimal) -> (r: VerticeNormal)
        ensures
            r == (VerticeNormal { x, y, z }),
    {
        VerticeNormal { x, y, z }
    }
}

/// A parameter-space vertex (`vp` statement).
#[derive(Clone, Copy, Debug, PartialEq, Eq, Structural)]
pub struct VerticeParameterSpace {
    pub u: Decimal,
    pub v: Decimal,
    pub w: Decimal,
}

impl VerticeParameterSpace {
    /// The vertex with the given components.
    pub fn new(u: Decimal, v: Decimal, w: Decimal) -> (r: VerticeParameterSpace)
        ensures
            r == (VerticeParameterSpace { u, v, w }),
    {
        VerticeParameterSpace { u, v, w }
    }
}

/// One corner of a face: indices into the vertex, texture and normal
/// lists, one-based as the file writes them; zero stands for an index
/// the corner does not give.
#[derive(Clone, Copy, Debug, PartialEq, Eq, Structural)]
pub struct VertexDataReference {
    pub vertex: usize,
    pub texture: usize,
    pub normal: usize,
}

impl VertexDataReference {
    /// The reference with the given indices.
    pub fn new(vertex: usize, texture: usize, normal: usize) -> (r: VertexDataReference)
        ensures
            r == (VertexDataReference { vertex, texture, normal }),
    {
        VertexDataReference { vertex, texture, normal }
    }
}

/// A polygonal face (`f` statement), after triangulation.
#[derive(Debug)]
pub struct Face {
    /// The position of this face among the file's faces, counted from
    /// zero.
    pub id: usize,
    /// How many faces the file holds in all.
    pub max_id: usize,
    /// The smoothing group in force, if any (`s` statement).
    pub smoothing_group: Option<usize>,
    /// The material named on the directly preceding line, if that line
    /// was a `usemtl` statement.
    pub material_name: Option<String>,
    /// The face's corners.
    pub vertex_references: Vec<VertexDataReference>,
}

/// Everything a model file describes.
#[derive(Debug)]
pub struct OBJ {
    /// The object's name (`o` statement), if any.
    pub name: Option<String>,
    /// The material libraries named by the last `mtllib` statement.
    pub mtls_identifiers: Vec<String>,
    /// Geometric vertices, with the homogeneous coordinate filled in.
    pub vertices: Vec<Vec4>,
    /// Texture coordinates.
    pub vertices_texture: Vec<VerticeTexture>,
    /// Vertex normals.
    pub vertices_normal: Vec<VerticeNormal>,
    /// Parameter-space vertices.
    pub vertices_parameter_space: Vec<VerticeParameterSpace>,
    /// The faces, in file order.
    pub faces: Vec<Face>,
}

impl OBJ {
    /// An empty model, before any statement is read.
    pub fn empty() -> (r: OBJ)
        ensures
            r.name is None,
            r.mtls_identifiers@.len() == 0,
            r.vertices@.len() == 0,
            r.vertices_texture@.len() == 0,
            r.vertices_normal@.len() == 0,
            r.vertices_parameter_space@.len() == 0,
            r.faces@.len() == 0,
    {
        OBJ {
            name: None,
            mtls_identifiers: Vec::new(),
            vertices: Vec::new(),
            vertices_texture: Vec::new(),
            vertices_normal: Vec::new(),
            vertices_parameter_space: Vec::new(),
            faces: Vec::new(),
        }
    }
}

/// Why a model file was rejected. Where a line number is carried it
/// counts the non-empty lines, starting at one.
#[derive(Debug)]
pub enum ParseError {
    /// The file holds no bytes at all.
    EmptyFile(usize, String),
    /// A statement is malformed or unknown.
    InvalidToken(usize, String),
    /// A `usemtl` statement names more than one material.
    InvalidFaceMaterial(usize, String),
    /// A face mixes corners with and without texture indices.
    InvalidFaceData(usize, String),
    /// The file defines no geometric vertex.
    MissingVertices,
    /// The file defines no face.
    MissingFaces,
}

impl ParseError {
    /// The error's text, for reporting.
    pub fn message(&self) -> (r: &str)
        ensures
            r@ == match self {
                ParseError::EmptyFile(_, m) => m@,
                ParseError::InvalidToken(_, m) => m@,
                ParseError::InvalidFaceMaterial(_, m) => m@,
                ParseError::InvalidFaceData(_, m) => m@,
                ParseError::MissingVertices => "Object file is missing vertices"@,
                ParseError::MissingFaces => "Object file is missing faces"@,
            },
    {
        match self {
            ParseError::EmptyFile(_, m) => m.as_str(),
            ParseError::InvalidToken(_, m) => m.as_str(),
            ParseError::InvalidFaceMaterial(_, m) => m.as_str(),
            ParseError::InvalidFaceData(_, m) => m.as_str(),
            ParseError::MissingVertices => "Object file is missing vertices",
            ParseError::MissingFaces => "Object file is missing faces",
        }
    }
}

} // verus!

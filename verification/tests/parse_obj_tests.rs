use basis::{parse_obj, Decimal, ParseError, Vec4, VertexDataReference, VerticeNormal,
    VerticeParameterSpace, VerticeTexture};

fn dec(n: i64) -> Decimal {
    Decimal::from_int(n)
}

#[test]
fn it_should_be_able_to_ignore_comments() {
    let file = "
            # This is a comment

            mtllib cube.mtl
            o cube39
            v 0.232406 -1.216630 1.133818
            # v 0.232406 -0.745504 2.843098
            # testing
            # v -0.227475 -0.745504 2.843098
            # v -0.227475 -1.216630 1.133818
            # v 0.232407 1.119982 1.133819
            # v 0.232406 1.119982 1.602814
            #v 0.232406 1.119982 1.602814
            f 1 1 1 1
";

    let result = parse_obj(file.to_string()).expect("This should work");

    assert_eq!(result.vertices.len(), 1);
    assert_eq!(result.vertices_texture.len(), 0);
    assert_eq!(result.vertices_normal.len(), 0);
    assert_eq!(result.vertices_parameter_space.len(), 0);
}

#[test]
fn it_should_be_able_parse_name() {
    let file = "
            # This is a comment

            mtllib cube.mtl
            o cube39
            v 0.232406 -1.216630 1.133818
            v 0.232406 -0.745504 2.843098
            f 1 1 1 1
";

    let result = parse_obj(file.to_string()).expect("This should work");

    assert_eq!(result.name, Some("cube39".to_string()));
}

#[test]
fn it_should_be_able_parse_mtllib() {
    let file = "
            # This is a comment

            mtllib cube.mtl testing.mtl
            o cube39
            v 0.232406 -1.216630 1.133818
            v 0.232406 -0.745504 2.843098
            f 1 1 1 1
";

    let result = parse_obj(file.to_string()).expect("This should work");

    assert_eq!(
        result.mtls_identifiers,
        vec!["cube.mtl".to_string(), "testing.mtl".to_string()]
    );
}

#[test]
fn it_should_store_vertices() {
    let file = "
            # This is a comment

            mtllib cube.mtl
            o cube39
            v      -5.000000       5.000000       0.000000
            v      -5.000000      -5.000000       0.000000
            v       5.000000      -5.000000       0.000000
            v       5.000000       5.000000       0.000000
            vt     -5.000000       5.000000       0.000000
            vt     -5.000000      -5.000000       0.000000
            vt      5.000000      -5.000000       0.000000
            vt      5.000000       5.000000       0.000000
            vn      0.000000       0.000000       1.000000
            vn      0.000000       0.000000       1.000000
            vn      0.000000       0.000000       1.000000
            vn      0.000000       0.000000       1.000000
            vp      0.210000       3.590000
            vp      0.000000       0.000000
            vp      1.000000       0.000000
            vp      0.500000       0.500000
            f       1 1 1 1
";

    let result = parse_obj(file.to_string()).expect("This should work");

    assert_eq!(result.vertices.len(), 4);
    assert_eq!(result.vertices_texture.len(), 4);
    assert_eq!(result.vertices_normal.len(), 4);
    assert_eq!(result.vertices_parameter_space.len(), 4);

    assert_eq!(result.vertices[0], Vec4::new(dec(-5), dec(5), dec(0), dec(1)));
    assert_eq!(result.vertices[1], Vec4::new(dec(-5), dec(-5), dec(0), dec(1)));
    assert_eq!(result.vertices[2], Vec4::new(dec(5), dec(-5), dec(0), dec(1)));
    assert_eq!(result.vertices[3], Vec4::new(dec(5), dec(5), dec(0), dec(1)));

    assert_eq!(result.vertices_texture[0], VerticeTexture::new(dec(-5), dec(5), dec(0)));
    assert_eq!(result.vertices_texture[1], VerticeTexture::new(dec(-5), dec(-5), dec(0)));
    assert_eq!(result.vertices_texture[2], VerticeTexture::new(dec(5), dec(-5), dec(0)));
    assert_eq!(result.vertices_texture[3], VerticeTexture::new(dec(5), dec(5), dec(0)));

    assert_eq!(result.vertices_normal[0], VerticeNormal::new(dec(0), dec(0), dec(1)));
    assert_eq!(result.vertices_normal[1], VerticeNormal::new(dec(0), dec(0), dec(1)));
    assert_eq!(result.vertices_normal[2], VerticeNormal::new(dec(0), dec(0), dec(1)));
    assert_eq!(result.vertices_normal[3], VerticeNormal::new(dec(0), dec(0), dec(1)));

    assert_eq!(
        result.vertices_parameter_space[0],
        VerticeParameterSpace::new(
            Decimal::from_scaled(false, 21, 2),
            Decimal::from_scaled(false, 359, 2),
            dec(1)
        )
    );
    assert_eq!(
        result.vertices_parameter_space[1],
        VerticeParameterSpace::new(dec(0), dec(0), dec(1))
    );
    assert_eq!(
        result.vertices_parameter_space[2],
        VerticeParameterSpace::new(dec(1), dec(0), dec(1))
    );
    assert_eq!(
        result.vertices_parameter_space[3],
        VerticeParameterSpace::new(
            Decimal::from_scaled(false, 5, 1),
            Decimal::from_scaled(false, 5, 1),
            dec(1)
        )
    );
}

#[test]
fn it_should_store_faces() {
    let file = "
            # This is a comment

            mtllib cube.mtl
            o cube39
            v      -5.000000       5.000000       0.000000
            vt     -5.000000       5.000000       0.000000
            vn      0.000000       0.000000       1.000000
            vp      0.210000       3.590000
            f 1/1/1 2/2/2 3/3/3 4/4/4
            f 1//1 2//2 3//3 4//4
";

    let result = parse_obj(file.to_string()).expect("This should work");

    assert_eq!(result.faces[0].vertex_references[0], VertexDataReference::new(1, 1, 1));
    assert_eq!(result.faces[0].vertex_references[1], VertexDataReference::new(2, 2, 2));
    assert_eq!(result.faces[0].vertex_references[2], VertexDataReference::new(3, 3, 3));
    // after triangulation
    assert_eq!(result.faces[0].vertex_references[3], VertexDataReference::new(1, 1, 1));
    assert_eq!(result.faces[0].vertex_references[4], VertexDataReference::new(3, 3, 3));
    assert_eq!(result.faces[0].vertex_references[5], VertexDataReference::new(4, 4, 4));

    assert_eq!(result.faces[1].vertex_references[0], VertexDataReference::new(1, 0, 1));
    assert_eq!(result.faces[1].vertex_references[1], VertexDataReference::new(2, 0, 2));
    assert_eq!(result.faces[1].vertex_references[2], VertexDataReference::new(3, 0, 3));
    // after triangulation
    assert_eq!(result.faces[1].vertex_references[3], VertexDataReference::new(1, 0, 1));
    assert_eq!(result.faces[1].vertex_references[4], VertexDataReference::new(3, 0, 3));
    assert_eq!(result.faces[1].vertex_references[5], VertexDataReference::new(4, 0, 4));
}

#[test]
fn it_should_store_face_specifying_only_the_vertice() {
    let file = "
            v 0.000000 2.000000 2.000000
            v 0.000000 0.000000 2.000000
            v 2.000000 0.000000 2.000000
            v 2.000000 2.000000 2.000000
            v 0.000000 2.000000 0.000000
            v 0.000000 0.000000 0.000000
            v 2.000000 0.000000 0.000000
            v 2.000000 2.000000 0.000000
            f 1 2 3 4
            f 8 7 6 5
";

    let result = parse_obj(file.to_string()).expect("This should work");

    assert_eq!(result.faces[0].vertex_references[0], VertexDataReference::new(1, 0, 0));
    assert_eq!(result.faces[0].vertex_references[1], VertexDataReference::new(2, 0, 0));
    assert_eq!(result.faces[0].vertex_references[2], VertexDataReference::new(3, 0, 0));
    // after triangulation
    assert_eq!(result.faces[0].vertex_references[3], VertexDataReference::new(1, 0, 0));
    assert_eq!(result.faces[0].vertex_references[4], VertexDataReference::new(3, 0, 0));
    assert_eq!(result.faces[0].vertex_references[5], VertexDataReference::new(4, 0, 0));

    assert_eq!(result.faces[1].vertex_references[0], VertexDataReference::new(8, 0, 0));
    assert_eq!(result.faces[1].vertex_references[1], VertexDataReference::new(7, 0, 0));
    assert_eq!(result.faces[1].vertex_references[2], VertexDataReference::new(6, 0, 0));
    // after triangulation
    assert_eq!(result.faces[1].vertex_references[3], VertexDataReference::new(8, 0, 0));
    assert_eq!(result.faces[1].vertex_references[4], VertexDataReference::new(6, 0, 0));
    assert_eq!(result.faces[1].vertex_references[5], VertexDataReference::new(5, 0, 0));
}

#[test]
fn it_should_fail_to_store_faces() {
    let file = "
            # This is a comment

            mtllib cube.mtl
            o cube39
            v      -5.000000       5.000000       0.000000
            vt     -5.000000       5.000000       0.000000
            vn      0.000000       0.000000       1.000000
            vp      0.210000       3.590000
            f 1/1/1 2/2/2 3/3/3 4/4/4
            f 1//1 2//2 3//3 4//4
            f 1/1/1 2/2/2 3//3 4//4
";

    let result = parse_obj(file.to_string());

    assert!(result.is_err());
    assert!(result
        .unwrap_err()
        .message()
        .contains("Illegal to give vertex texture for some vertices, but not all"));
}

#[test]
fn it_should_store_face_with_materials() {
    let file = "
            # This is a comment

            mtllib cube.mtl
            o cube39
            v      -5.000000       5.000000       0.000000
            vt     -5.000000       5.000000       0.000000
            vn      0.000000       0.000000       1.000000
            vp      0.210000       3.590000
            usemtl 4bed15
            f 1/4/1 2/3/2 3/2/3 4/1/4
            usemtl 2daec2
            f 2/8/2 5/7/5 6/6/6 3/5/3
            f 5/12/5 7/11/7 8/10/8 6/9/6
            f 4/24/4 3/23/3 6/22/6 8/21/8
            usemtl 4602e3
            f 7/16/7 1/15/1 4/14/4 8/13/8
            usemtl c41dde
            f 7/20/7 5/19/5 2/18/2 1/17/1
";

    let result = parse_obj(file.to_string()).expect("This should work");

    assert_eq!(result.faces.len(), 6);
    assert_eq!(result.faces[0].material_name, Some("4bed15".to_string()));
    assert_eq!(result.faces[1].material_name, Some("2daec2".to_string()));
    assert_eq!(result.faces[2].material_name, None);
    assert_eq!(result.faces[3].material_name, None);
    assert_eq!(result.faces[4].material_name, Some("4602e3".to_string()));
    assert_eq!(result.faces[5].material_name, Some("c41dde".to_string()));
}

#[test]
fn it_should_store_face_including_group_id() {
    let file = "
            # This is a comment

            mtllib cube.mtl
            o cube39
            v      -5.000000       5.000000       0.000000
            vt     -5.000000       5.000000       0.000000
            vn      0.000000       0.000000       1.000000
            vp      0.210000       3.590000
            s off
            usemtl 4bed15
            f 1/4/1 2/3/2 3/2/3 4/1/4
            usemtl 2daec2
            f 2/8/2 5/7/5 6/6/6 3/5/3
            s 1
            f 5/12/5 7/11/7 8/10/8 6/9/6
            f 4/24/4 3/23/3 6/22/6 8/21/8
            usemtl 4602e3
            s 2
            f 7/16/7 1/15/1 4/14/4 8/13/8
            usemtl c41dde
            f 7/20/7 5/19/5 2/18/2 1/17/1
";

    let result = parse_obj(file.to_string()).expect("This should work");

    assert_eq!(result.faces.len(), 6);
    assert_eq!(result.faces[0].smoothing_group, None);
    assert_eq!(result.faces[1].smoothing_group, None);
    assert_eq!(result.faces[2].smoothing_group, Some(1));
    assert_eq!(result.faces[3].smoothing_group, Some(1));
    assert_eq!(result.faces[4].smoothing_group, Some(2));
    assert_eq!(result.faces[4].smoothing_group, Some(2));
}

#[test]
fn empty_file_is_rejected() {
    let result = parse_obj(String::new());
    assert!(matches!(result, Err(ParseError::EmptyFile(0, _))));
}

#[test]
fn unknown_statement_is_rejected() {
    let result = parse_obj("zzz 1 2 3\n".to_string());
    assert!(matches!(result, Err(ParseError::InvalidToken(1, _))));
}

#[test]
fn too_many_materials_are_rejected() {
    let result = parse_obj("v 0 0 0\nusemtl one two three\nf 1 1 1\n".to_string());
    assert!(matches!(result, Err(ParseError::InvalidFaceMaterial(2, _))));
}

#[test]
fn file_without_vertices_is_rejected() {
    let result = parse_obj("f 1 2 3\n".to_string());
    assert!(matches!(result, Err(ParseError::MissingVertices)));
}

#[test]
fn file_without_faces_is_rejected() {
    let result = parse_obj("v 0.5 1 2\n".to_string());
    assert!(matches!(result, Err(ParseError::MissingFaces)));
}

#[test]
fn bad_vertex_is_rejected_with_its_line() {
    let result = parse_obj("o thing\nv 1 2\n".to_string());
    assert!(matches!(result, Err(ParseError::InvalidToken(2, _))));
}

#[test]
fn face_ids_count_from_zero_and_max_id_is_the_face_count() {
    let file = "v 1 2 3\nf 1 1 1\nf 1 1 1\nf 1 1 1\n";
    let result = parse_obj(file.to_string()).expect("This should work");
    assert_eq!(result.faces.len(), 3);
    for (i, face) in result.faces.iter().enumerate() {
        assert_eq!(face.id, i);
        assert_eq!(face.max_id, 3);
    }
}

#[test]
fn fractional_vertices_parse_exactly() {
    let file = "v 0.232406 -1.216630 1.133818\nf 1 1 1\n";
    let result = parse_obj(file.to_string()).expect("This should work");
    assert_eq!(
        result.vertices[0],
        Vec4::new(
            Decimal::from_scaled(false, 232406, 6),
            Decimal::from_scaled(true, 121663, 5),
            Decimal::from_scaled(false, 1133818, 6),
            Decimal::from_int(1)
        )
    );
}

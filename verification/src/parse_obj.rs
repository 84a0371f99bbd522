//! The Wavefront OBJ model parser.
//!
//! A model file is a sequence of lines, each a statement: `v`, `vt`,
//! `vn` and `vp` add vertex data, `f` adds a face, `o` names the
//! object, `mtllib` names material libraries, `usemtl` picks a material
//! for the next face, `s` sets the smoothing group, `#` starts a
//! comment. Unknown statements are rejected; the many statements of the
//! full format that this renderer never draws are accepted and skipped.
//! Faces are triangulated into fans before the model is returned.

use crate::decimal::{
    parse_decimal, parse_usize, parse_usize_range, spec_parse_decimal, spec_parse_usize, Decimal,
};
use crate::math::Vec4;
use crate::obj_types::{
    Face, ParseError, VertexDataReference, VerticeNormal, VerticeParameterSpace, VerticeTexture,
    OBJ,
};
use vstd::prelude::*;
use vstd::string::{StringExecFns, StringSliceAdditionalSpecFns};

verus! {

/// The index of the first occurrence of `b` in `s`, or `-1`.
pub open spec fn find_byte(s: Seq<u8>, b: u8) -> int
    decreases s.len(),
{
    if s.len() == 0 {
        -1
    } else if s[0] == b {
        0
    } else if find_byte(s.drop_first(), b) < 0 {
        -1
    } else {
        find_byte(s.drop_first(), b) + 1
    }
}

/// Where the first occurrence is: before it there is none, there it is.
proof fn lemma_find_byte_at(s: Seq<u8>, b: u8, p: int)
    requires
        0 <= p < s.len(),
        s[p] == b,
        forall|j: int| 0 <= j < p ==> s[j] != b,
    ensures
        find_byte(s, b) == p,
    decreases p,
{
    if p > 0 {
        lemma_find_byte_at(s.drop_first(), b, p - 1);
    }
}

/// A string holding the byte has a first occurrence.
proof fn lemma_find_byte_contains(s: Seq<u8>, b: u8, p: int)
    requires
        0 <= p < s.len(),
        s[p] == b,
    ensures
        find_byte(s, b) >= 0,
    decreases p,
{
    if s[0] != b {
        lemma_find_byte_contains(s.drop_first(), b, p - 1);
    }
}

/// A string without the byte has no first occurrence.
proof fn lemma_find_byte_none(s: Seq<u8>, b: u8)
    requires
        forall|j: int| 0 <= j < s.len() ==> s[j] != b,
    ensures
        find_byte(s, b) == -1,
    decreases s.len(),
{
    if s.len() > 0 {
        lemma_find_byte_none(s.drop_first(), b);
    }
}

/// An index field of a face corner: absent (empty) counts as zero.
pub open spec fn spec_ref_field(s: Seq<u8>) -> Option<usize> {
    if s.len() == 0 {
        Some(0usize)
    } else {
        spec_parse_usize(s)
    }
}

/// What one face corner token (`v`, `v/vt`, `v/vt/vn` or `v//vn`)
/// yields: the three indices, and whether a texture index was given.
pub open spec fn spec_parse_ref(s: Seq<u8>) -> Option<(VertexDataReference, bool)> {
    let i = find_byte(s, 47);
    if i < 0 {
        match spec_parse_usize(s) {
            Some(v) => Some((VertexDataReference { vertex: v, texture: 0, normal: 0 }, false)),
            None => None,
        }
    } else {
        let vpart = s.subrange(0, i);
        let rest = s.subrange(i + 1, s.len() as int);
        let j = find_byte(rest, 47);
        if j < 0 {
            match (spec_parse_usize(vpart), spec_ref_field(rest)) {
                (Some(v), Some(t)) => Some(
                    (VertexDataReference { vertex: v, texture: t, normal: 0 }, rest.len() > 0),
                ),
                _ => None,
            }
        } else {
            let tpart = rest.subrange(0, j);
            let npart = rest.subrange(j + 1, rest.len() as int);
            if find_byte(npart, 47) >= 0 {
                None
            } else {
                match (spec_parse_usize(vpart), spec_ref_field(tpart), spec_ref_field(npart)) {
                    (Some(v), Some(t), Some(nn)) => Some(
                        (
                            VertexDataReference { vertex: v, texture: t, normal: nn },
                            tpart.len() > 0,
                        ),
                    ),
                    _ => None,
                }
            }
        }
    }
}

/// What a `v` statement's arguments yield: three coordinates and an
/// optional homogeneous one, which defaults to one.
pub open spec fn spec_parse_vertice(args: Seq<Seq<u8>>) -> Option<Vec4> {
    if args.len() < 3 || args.len() > 4 {
        None
    } else {
        let x = spec_parse_decimal(args[0]);
        let y = spec_parse_decimal(args[1]);
        let z = spec_parse_decimal(args[2]);
        let w = if args.len() == 4 {
            spec_parse_decimal(args[3])
        } else {
            Some(Decimal { neg: false, mantissa: 1, scale: 0 })
        };
        if x is Some && y is Some && z is Some && w is Some {
            Some(
                Vec4 {
                    x: x.unwrap(),
                    y: y.unwrap(),
                    z: z.unwrap(),
                    w: w.unwrap(),
                },
            )
        } else {
            None
        }
    }
}

/// What a `vt` statement's arguments yield: one to three coordinates,
/// the missing ones zero.
pub open spec fn spec_parse_vertice_texture(args: Seq<Seq<u8>>) -> Option<VerticeTexture> {
    if args.len() < 1 || args.len() > 3 {
        None
    } else {
        let u = spec_parse_decimal(args[0]);
        let v = if args.len() >= 2 {
            spec_parse_decimal(args[1])
        } else {
            Some(Decimal { neg: false, mantissa: 0, scale: 0 })
        };
        let w = if args.len() >= 3 {
            spec_parse_decimal(args[2])
        } else {
            Some(Decimal { neg: false, mantissa: 0, scale: 0 })
        };
        if u is Some && v is Some && w is Some {
            Some(VerticeTexture { u: u.unwrap(), v: v.unwrap(), w: w.unwrap() })
        } else {
            None
        }
    }
}

/// What a `vn` statement's arguments yield: exactly three components.
pub open spec fn spec_parse_vertice_normal(args: Seq<Seq<u8>>) -> Option<VerticeNormal> {
    if args.len() != 3 {
        None
    } else {
        let x = spec_parse_decimal(args[0]);
        let y = spec_parse_decimal(args[1]);
        let z = spec_parse_decimal(args[2]);
        if x is Some && y is Some && z is Some {
            Some(VerticeNormal { x: x.unwrap(), y: y.unwrap(), z: z.unwrap() })
        } else {
            None
        }
    }
}

/// What a `vp` statement's arguments yield: two or three coordinates,
/// the missing third one.
pub open spec fn spec_parse_vertice_parameter_space(args: Seq<Seq<u8>>) -> Option<
    VerticeParameterSpace,
> {
    if args.len() < 2 || args.len() > 3 {
        None
    } else {
        let u = spec_parse_decimal(args[0]);
        let v = spec_parse_decimal(args[1]);
        let w = if args.len() == 3 {
            spec_parse_decimal(args[2])
        } else {
            Some(Decimal { neg: false, mantissa: 1, scale: 0 })
        };
        if u is Some && v is Some && w is Some {
            Some(VerticeParameterSpace { u: u.unwrap(), v: v.unwrap(), w: w.unwrap() })
        } else {
            None
        }
    }
}

/// What an `s` statement's argument yields: `off` is group zero, else
/// the group number itself.
pub open spec fn spec_parse_smoothing_group(args: Seq<Seq<u8>>) -> Option<usize> {
    if args.len() < 1 {
        None
    } else if args[0] =~= seq![111u8, 102u8, 102u8] {
        Some(0usize)
    } else {
        spec_parse_usize(args[0])
    }
}

/// The triangle fan of a polygon's corners: corner zero paired with
/// every edge of the rest. Polygons with fewer than three corners are
/// left as they are.
pub open spec fn spec_fan(refs: Seq<VertexDataReference>) -> Seq<VertexDataReference> {
    if refs.len() < 3 {
        refs
    } else {
        fan_from(refs, 1)
    }
}

/// The fan triangles from edge `i` on.
pub open spec fn fan_from(refs: Seq<VertexDataReference>, i: int) -> Seq<VertexDataReference>
    decreases refs.len() - i,
{
    if i + 1 >= refs.len() || i < 1 {
        Seq::empty()
    } else {
        seq![refs[0], refs[i], refs[i + 1]] + fan_from(refs, i + 1)
    }
}

/// Whether `tok` spells the keyword `kw`.
fn token_is(tok: &[u8], kw: &str) -> (r: bool)
    ensures
        r == (tok@ == kw.spec_bytes()),
{
    let k = kw.as_bytes();
    if tok.len() != k.len() {
        proof {
            assert(tok@.len() != k@.len());
        }
        return false;
    }
    let mut i: usize = 0;
    while i < k.len()
        invariant
            0 <= i <= k@.len(),
            tok@.len() == k@.len(),
            k@ == kw.spec_bytes(),
            forall|j: int| 0 <= j < i ==> tok@[j] == k@[j],
        decreases k@.len() - i,
    {
        if tok[i] != k[i] {
            proof {
                assert(tok@ != k@) by {
                    if tok@ == k@ {
                        assert(tok@[i as int] == k@[i as int]);
                    }
                }
            }
            return false;
        }
        i = i + 1;
    }
    proof {
        assert(tok@ =~= k@);
    }
    true
}

/// One face corner token, parsed: the indices and whether a texture
/// index was given.
fn parse_ref(tok: &[u8]) -> (r: Option<(VertexDataReference, bool)>)
    ensures
        r == spec_parse_ref(tok@),
{
    let n = tok.len();
    let mut s1: usize = n;
    let mut i: usize = 0;
    while i < n
        invariant
            0 <= i <= n,
            n == tok@.len(),
            s1 == n || (s1 < i && tok@[s1 as int] == 47 && forall|j: int|
                0 <= j < s1 ==> tok@[j] != 47),
            s1 == n ==> forall|j: int| 0 <= j < i ==> tok@[j] != 47,
        decreases n - i,
    {
        if s1 == n && tok[i] == 47 {
            s1 = i;
        }
        i = i + 1;
    }
    if s1 == n {
        proof {
            lemma_find_byte_none(tok@, 47);
        }
        match parse_usize(tok) {
            Some(v) => Some((VertexDataReference { vertex: v, texture: 0, normal: 0 }, false)),
            None => None,
        }
    } else {
        proof {
            lemma_find_byte_at(tok@, 47, s1 as int);
        }
        let ghost rest = tok@.subrange(s1 as int + 1, n as int);
        let mut s2: usize = n;
        let mut i2: usize = s1 + 1;
        while i2 < n
            invariant
                s1 + 1 <= i2 <= n,
                n == tok@.len(),
                s2 == n || (s1 < s2 && s2 < i2 && tok@[s2 as int] == 47 && forall|j: int|
                    s1 < j < s2 ==> tok@[j] != 47),
                s2 == n ==> forall|j: int| s1 < j < i2 ==> tok@[j] != 47,
            decreases n - i2,
        {
            if s2 == n && tok[i2] == 47 {
                s2 = i2;
            }
            i2 = i2 + 1;
        }
        let v = match parse_usize_range(tok, 0, s1) {
            Some(v) => v,
            None => {
                return None;
            },
        };
        if s2 == n {
            proof {
                assert forall|j: int| 0 <= j < rest.len() implies rest[j] != 47 by {
                    assert(rest[j] == tok@[j + s1 + 1]);
                }
                lemma_find_byte_none(rest, 47);
            }
            let t = if s1 + 1 == n {
                0
            } else {
                match parse_usize_range(tok, s1 + 1, n) {
                    Some(t) => t,
                    None => {
                        return None;
                    },
                }
            };
            proof {
                assert(rest =~= tok@.subrange(s1 as int + 1, n as int));
            }
            Some((VertexDataReference { vertex: v, texture: t, normal: 0 }, s1 + 1 < n))
        } else {
            proof {
                assert(rest[s2 - s1 - 1] == tok@[s2 as int]);
                assert forall|j: int| 0 <= j < s2 - s1 - 1 implies rest[j] != 47 by {
                    assert(rest[j] == tok@[j + s1 + 1]);
                }
                lemma_find_byte_at(rest, 47, s2 - s1 - 1);
            }
            let ghost npart = rest.subrange(s2 - s1, rest.len() as int);
            let mut s3: usize = n;
            let mut i3: usize = s2 + 1;
            while i3 < n
                invariant
                    s2 + 1 <= i3 <= n,
                    n == tok@.len(),
                    s3 == n || (s2 < s3 && s3 < i3 && tok@[s3 as int] == 47),
                    s3 == n ==> forall|j: int| s2 < j < i3 ==> tok@[j] != 47,
                decreases n - i3,
            {
                if s3 == n && tok[i3] == 47 {
                    s3 = i3;
                }
                i3 = i3 + 1;
            }
            if s3 < n {
                proof {
                    assert(npart[s3 - s2 - 1] == tok@[s3 as int]);
                    assert(find_byte(npart, 47) >= 0) by {
                        if find_byte(npart, 47) < 0 {
                            lemma_find_byte_contains(npart, 47, s3 - s2 - 1);
                        }
                    }
                }
                return None;
            }
            proof {
                assert forall|j: int| 0 <= j < npart.len() implies npart[j] != 47 by {
                    assert(npart[j] == tok@[j + s2 + 1]);
                }
                lemma_find_byte_none(npart, 47);
                assert(rest.subrange(0, s2 - s1 - 1) =~= tok@.subrange(
                    s1 as int + 1,
                    s2 as int,
                ));
                assert(npart =~= tok@.subrange(s2 as int + 1, n as int));
            }
            let t = if s1 + 1 == s2 {
                0
            } else {
                match parse_usize_range(tok, s1 + 1, s2) {
                    Some(t) => t,
                    None => {
                        return None;
                    },
                }
            };
            let nn = if s2 + 1 == n {
                0
            } else {
                match parse_usize_range(tok, s2 + 1, n) {
                    Some(nn) => nn,
                    None => {
                        return None;
                    },
                }
            };
            Some((VertexDataReference { vertex: v, texture: t, normal: nn }, s1 + 1 < s2))
        }
    }
}


/// A `v` statement's arguments, parsed.
fn parse_vertice(args: &[Vec<u8>]) -> (r: Option<Vec4>)
    ensures
        r == spec_parse_vertice(args.deep_view()),
        r is Some ==> r.unwrap().wf(),
{
    proof {
        assert(args.deep_view().len() == args@.len());
        assert forall|i: int| 0 <= i < args@.len() implies #[trigger] args.deep_view()[i]
            == args@[i]@ by {
        }
    }
    if args.len() < 3 || args.len() > 4 {
        return None;
    }
    let x = match parse_decimal(args[0].as_slice()) {
        Some(d) => d,
        None => {
            return None;
        },
    };
    let y = match parse_decimal(args[1].as_slice()) {
        Some(d) => d,
        None => {
            return None;
        },
    };
    let z = match parse_decimal(args[2].as_slice()) {
        Some(d) => d,
        None => {
            return None;
        },
    };
    let w = if args.len() == 4 {
        match parse_decimal(args[3].as_slice()) {
            Some(d) => d,
            None => {
                return None;
            },
        }
    } else {
        Decimal::one()
    };
    Some(Vec4 { x, y, z, w })
}

/// A `vt` statement's arguments, parsed.
fn parse_vertice_texture(args: &[Vec<u8>]) -> (r: Option<VerticeTexture>)
    ensures
        r == spec_parse_vertice_texture(args.deep_view()),
{
    proof {
        assert(args.deep_view().len() == args@.len());
        assert forall|i: int| 0 <= i < args@.len() implies #[trigger] args.deep_view()[i]
            == args@[i]@ by {
        }
    }
    if args.len() < 1 || args.len() > 3 {
        return None;
    }
    let u = match parse_decimal(args[0].as_slice()) {
        Some(d) => d,
        None => {
            return None;
        },
    };
    let v = if args.len() >= 2 {
        match parse_decimal(args[1].as_slice()) {
            Some(d) => d,
            None => {
                return None;
            },
        }
    } else {
        Decimal::zero()
    };
    let w = if args.len() >= 3 {
        match parse_decimal(args[2].as_slice()) {
            Some(d) => d,
            None => {
                return None;
            },
        }
    } else {
        Decimal::zero()
    };
    Some(VerticeTexture { u, v, w })
}

/// A `vn` statement's arguments, parsed.
fn parse_vertice_normal(args: &[Vec<u8>]) -> (r: Option<VerticeNormal>)
    ensures
        r == spec_parse_vertice_normal(args.deep_view()),
{
    proof {
        assert(args.deep_view().len() == args@.len());
        assert forall|i: int| 0 <= i < args@.len() implies #[trigger] args.deep_view()[i]
            == args@[i]@ by {
        }
    }
    if args.len() != 3 {
        return None;
    }
    let x = match parse_decimal(args[0].as_slice()) {
        Some(d) => d,
        None => {
            return None;
        },
    };
    let y = match parse_decimal(args[1].as_slice()) {
        Some(d) => d,
        None => {
            return None;
        },
    };
    let z = match parse_decimal(args[2].as_slice()) {
        Some(d) => d,
        None => {
            return None;
        },
    };
    Some(VerticeNormal { x, y, z })
}

/// A `vp` statement's arguments, parsed.
fn parse_vertice_parameter_space(args: &[Vec<u8>]) -> (r: Option<VerticeParameterSpace>)
    ensures
        r == spec_parse_vertice_parameter_space(args.deep_view()),
{
    proof {
        assert(args.deep_view().len() == args@.len());
        assert forall|i: int| 0 <= i < args@.len() implies #[trigger] args.deep_view()[i]
            == args@[i]@ by {
        }
    }
    if args.len() < 2 || args.len() > 3 {
        return None;
    }
    let u = match parse_decimal(args[0].as_slice()) {
        Some(d) => d,
        None => {
            return None;
        },
    };
    let v = match parse_decimal(args[1].as_slice()) {
        Some(d) => d,
        None => {
            return None;
        },
    };
    let w = if args.len() == 3 {
        match parse_decimal(args[2].as_slice()) {
            Some(d) => d,
            None => {
                return None;
            },
        }
    } else {
        Decimal::one()
    };
    Some(VerticeParameterSpace { u, v, w })
}

/// An `s` statement's argument, parsed.
fn parse_smoothing_group(args: &[Vec<u8>]) -> (r: Option<usize>)
    ensures
        r == spec_parse_smoothing_group(args.deep_view()),
{
    proof {
        assert(args.deep_view().len() == args@.len());
        assert forall|i: int| 0 <= i < args@.len() implies #[trigger] args.deep_view()[i]
            == args@[i]@ by {
        }
    }
    if args.len() < 1 {
        return None;
    }
    let a = args[0].as_slice();
    if a.len() == 3 && a[0] == 111 && a[1] == 102 && a[2] == 102 {
        proof {
            assert(args@[0]@ =~= seq![111u8, 102u8, 102u8]);
        }
        Some(0)
    } else {
        proof {
            assert(!(args@[0]@ =~= seq![111u8, 102u8, 102u8]));
        }
        parse_usize(a)
    }
}

/// Replaces a polygon's corners by its triangle fan; polygons of fewer
/// than three corners are returned as they are.
fn triangulate_face(refs: &Vec<VertexDataReference>) -> (r: Vec<VertexDataReference>)
    ensures
        r@ == spec_fan(refs@),
{
    let n = refs.len();
    if n < 3 {
        let mut out: Vec<VertexDataReference> = Vec::new();
        let mut i: usize = 0;
        while i < n
            invariant
                0 <= i <= n,
                n == refs@.len(),
                out@ =~= refs@.subrange(0, i as int),
            decreases n - i,
        {
            out.push(refs[i]);
            i = i + 1;
        }
        proof {
            assert(refs@.subrange(0, n as int) =~= refs@);
        }
        return out;
    }
    let mut out: Vec<VertexDataReference> = Vec::new();
    let mut i: usize = 1;
    while i + 1 < n
        invariant
            1 <= i,
            i + 1 <= n,
            n == refs@.len(),
            3 <= n,
            fan_from(refs@, 1) =~= out@ + fan_from(refs@, i as int),
        decreases n - i,
    {
        let ghost prev = out@;
        out.push(refs[0]);
        out.push(refs[i]);
        out.push(refs[i + 1]);
        proof {
            assert(out@ =~= prev + seq![refs@[0], refs@[i as int], refs@[i as int + 1]]);
            assert(fan_from(refs@, i as int) == seq![
                refs@[0],
                refs@[i as int],
                refs@[i as int + 1],
            ] + fan_from(refs@, i as int + 1));
            assert(fan_from(refs@, 1) =~= out@ + fan_from(refs@, i as int + 1));
        }
        i = i + 1;
    }
    proof {
        assert(fan_from(refs@, i as int) =~= Seq::<VertexDataReference>::empty());
        assert(out@ =~= fan_from(refs@, 1));
    }
    out
}

/// A byte of horizontal white space (the line splitter keeps newlines
/// for itself).
pub open spec fn is_space(c: u8) -> bool {
    c == 32 || c == 9 || c == 13 || c == 11 || c == 12
}

/// The bytes of `t` with white space stripped from both ends.
fn trim_bytes(t: &Vec<u8>) -> (r: Vec<u8>)
    ensures
        r@.len() > 0 ==> !is_space(r@.first()) && !is_space(r@.last()),
{
    let n = t.len();
    let mut a: usize = 0;
    while a < n && (t[a] == 32 || t[a] == 9 || t[a] == 13 || t[a] == 11 || t[a] == 12)
        invariant
            0 <= a <= n,
            n == t@.len(),
        decreases n - a,
    {
        a = a + 1;
    }
    let mut b: usize = n;
    while b > a && (t[b - 1] == 32 || t[b - 1] == 9 || t[b - 1] == 13 || t[b - 1] == 11 || t[b
        - 1] == 12)
        invariant
            a <= b <= n,
            n == t@.len(),
        decreases b,
    {
        b = b - 1;
    }
    let mut r: Vec<u8> = Vec::new();
    let mut i: usize = a;
    while i < b
        invariant
            a <= i <= b <= n,
            n == t@.len(),
            r@ =~= t@.subrange(a as int, i as int),
            a < b ==> !is_space(t@[a as int]),
            a < b ==> !is_space(t@[b as int - 1]),
        decreases b - i,
    {
        r.push(t[i]);
        i = i + 1;
    }
    r
}

/// Splits `bytes[from..to]` into statement tokens: runs between spaces,
/// each trimmed of remaining white space, empties dropped. Every token
/// returned is non-empty.
fn tokenize(bytes: &Vec<u8>, from: usize, to: usize) -> (r: Vec<Vec<u8>>)
    requires
        from <= to <= bytes@.len(),
    ensures
        forall|i: int| 0 <= i < r@.len() ==> (#[trigger] r@[i])@.len() > 0,
{
    let mut toks: Vec<Vec<u8>> = Vec::new();
    let mut cur: Vec<u8> = Vec::new();
    let mut i: usize = from;
    while i < to
        invariant
            from <= i <= to <= bytes@.len(),
            forall|k: int| 0 <= k < toks@.len() ==> (#[trigger] toks@[k])@.len() > 0,
        decreases to - i,
    {
        let c = bytes[i];
        if c == 32 {
            let trimmed = trim_bytes(&cur);
            if trimmed.len() > 0 {
                toks.push(trimmed);
            }
            cur = Vec::new();
        } else {
            cur.push(c);
        }
        i = i + 1;
    }
    let trimmed = trim_bytes(&cur);
    if trimmed.len() > 0 {
        toks.push(trimmed);
    }
    toks
}

/// Relies on `String::from_utf8_lossy` (and `Cow::into_owned`): bytes
/// that are all ASCII decode to exactly those characters.
#[verifier::external_body]
fn bytes_to_string(b: &[u8]) -> (r: String)
    ensures
        (forall|i: int| 0 <= i < b@.len() ==> b@[i] < 128) ==> r@.len() == b@.len() && (forall|
            i: int,
        |
            0 <= i < b@.len() ==> r@[i] == b@[i] as char),
{
    String::from_utf8_lossy(b).into_owned()
}

/// A statement this renderer accepts but has no use for.
fn todo(_line: &str) -> (r: Result<(), ParseError>)
    ensures
        r is Ok,
{
    Ok(())
}


/// The fan holds whole triangles.
proof fn lemma_fan_mult3(refs: Seq<VertexDataReference>, i: int)
    ensures
        fan_from(refs, i).len() % 3 == 0,
    decreases refs.len() - i,
{
    if i + 1 < refs.len() && i >= 1 {
        lemma_fan_mult3(refs, i + 1);
    }
}

/// An `f` statement's corner tokens, parsed in order. `Err(true)` means
/// the corners mix texture-index forms; `Err(false)` a malformed
/// corner.
fn parse_face_refs(args: &[Vec<u8>]) -> (r: Result<Vec<VertexDataReference>, bool>)
    ensures
        r matches Result::Ok(refs) ==> refs@.len() == args.deep_view().len() && (forall|i: int|
            0 <= i < refs@.len() ==> (#[trigger] spec_parse_ref(args.deep_view()[i])) is Some
                && refs@[i] == spec_parse_ref(args.deep_view()[i]).unwrap().0) && (forall|
            i: int,
            j: int,
        |
            0 <= i < refs@.len() && 0 <= j < refs@.len() ==> #[trigger] spec_parse_ref(
                args.deep_view()[i],
            ).unwrap().1 == #[trigger] spec_parse_ref(args.deep_view()[j]).unwrap().1),
{
    proof {
        assert(args.deep_view().len() == args@.len());
        assert forall|k: int| 0 <= k < args@.len() implies #[trigger] args.deep_view()[k]
            == args@[k]@ by {
        }
    }
    let mut refs: Vec<VertexDataReference> = Vec::new();
    let mut expect: bool = false;
    let mut i: usize = 0;
    while i < args.len()
        invariant
            0 <= i <= args@.len(),
            args.deep_view().len() == args@.len(),
            forall|k: int| 0 <= k < args@.len() ==> #[trigger] args.deep_view()[k] == args@[k]@,
            refs@.len() == i,
            forall|k: int|
                0 <= k < i ==> (#[trigger] spec_parse_ref(args.deep_view()[k])) is Some
                    && refs@[k] == spec_parse_ref(args.deep_view()[k]).unwrap().0,
            forall|k: int|
                0 <= k < i ==> #[trigger] spec_parse_ref(args.deep_view()[k]).unwrap().1
                    == expect,
        decreases args@.len() - i,
    {
        match parse_ref(args[i].as_slice()) {
            None => {
                return Err(false);
            },
            Some((vr, has_vt)) => {
                if i == 0 {
                    expect = has_vt;
                } else if has_vt != expect {
                    return Err(true);
                }
                refs.push(vr);
            },
        }
        i = i + 1;
    }
    Ok(refs)
}

/// Reads a whole model file.
///
/// An entirely empty file is rejected at once; a successful parse
/// holds at least one vertex and one face, numbers its faces from zero
/// in file order with `max_id` the face count, triangulates every face
/// into whole triangles, and stores exact, well-formed coordinates.
/// Malformed or unknown statements are rejected with the offending
/// line; a file without vertices or without faces is rejected after
/// reading.
pub fn parse_obj(data: String) -> (r: Result<OBJ, ParseError>)
    ensures
        data@.len() == 0 ==> (r matches Result::Err(e) && (e matches ParseError::EmptyFile(
            line,
            _,
        ) && line == 0)),
        r matches Result::Ok(obj) ==> {
            &&& obj.vertices@.len() > 0
            &&& obj.faces@.len() > 0
            &&& forall|i: int|
                0 <= i < obj.faces@.len() ==> (#[trigger] obj.faces@[i]).id == i
                    && obj.faces@[i].max_id == obj.faces@.len() && (
                obj.faces@[i].vertex_references@.len() % 3 == 0
                    || obj.faces@[i].vertex_references@.len() < 3)
                    && obj.faces@[i].smoothing_group != Some(0usize)
            &&& forall|i: int|
                0 <= i < obj.vertices@.len() ==> (#[trigger] obj.vertices@[i]).wf()
        },
{
    let bytes = data.as_str().as_bytes_vec();
    if data.as_str().is_empty() {
        return Err(ParseError::EmptyFile(0, String::from_str("Object file is empty")));
    }
    let n = bytes.len();
    let mut name: Option<String> = None;
    let mut mtls: Vec<String> = Vec::new();
    let mut vertices: Vec<Vec4> = Vec::new();
    let mut vts: Vec<VerticeTexture> = Vec::new();
    let mut vns: Vec<VerticeNormal> = Vec::new();
    let mut vps: Vec<VerticeParameterSpace> = Vec::new();
    let mut faces: Vec<Face> = Vec::new();
    let mut line_no: usize = 1;
    let mut smoothing: usize = 0;
    let mut face_id: usize = 0;
    let mut pending_material: Option<String> = None;
    let mut pos: usize = 0;
    while pos < n
        invariant
            data@.len() > 0,
            0 <= pos <= n,
            n == bytes@.len(),
            face_id == faces@.len(),
            forall|i: int| 0 <= i < faces@.len() ==> (#[trigger] faces@[i]).id == i,
            forall|i: int|
                0 <= i < faces@.len() ==> (#[trigger] faces@[i]).smoothing_group != Some(
                    0usize,
                ),
            forall|i: int| 0 <= i < vertices@.len() ==> (#[trigger] vertices@[i]).wf(),
        decreases n - pos,
    {
        let mut e: usize = pos;
        while e < n && bytes[e] != 10
            invariant
                pos <= e <= n,
                n == bytes@.len(),
            decreases n - e,
        {
            e = e + 1;
        }
        let tokens = tokenize(&bytes, pos, e);
        if tokens.len() > 0 {
            let (_, args) = tokens.as_slice().split_at(1);
            let cmd = tokens[0].as_slice();
            if cmd[0] == 35 {
                // a comment line
            } else if token_is(cmd, "v") {
                match parse_vertice(args) {
                    Some(v) => vertices.push(v),
                    None => {
                        return Err(
                            ParseError::InvalidToken(
                                line_no,
                                String::from_str("Invalid vertex statement"),
                            ),
                        );
                    },
                }
            } else if token_is(cmd, "vt") {
                match parse_vertice_texture(args) {
                    Some(v) => vts.push(v),
                    None => {
                        return Err(
                            ParseError::InvalidToken(
                                line_no,
                                String::from_str("Invalid vertex texture statement"),
                            ),
                        );
                    },
                }
            } else if token_is(cmd, "vn") {
                match parse_vertice_normal(args) {
                    Some(v) => vns.push(v),
                    None => {
                        return Err(
                            ParseError::InvalidToken(
                                line_no,
                                String::from_str("Invalid vertex normal statement"),
                            ),
                        );
                    },
                }
            } else if token_is(cmd, "vp") {
                match parse_vertice_parameter_space(args) {
                    Some(v) => vps.push(v),
                    None => {
                        return Err(
                            ParseError::InvalidToken(
                                line_no,
                                String::from_str("Invalid parameter space vertex statement"),
                            ),
                        );
                    },
                }
            } else if token_is(cmd, "f") {
                match parse_face_refs(args) {
                    Ok(refs) => {
                        let face = Face {
                            id: face_id,
                            max_id: 0,
                            smoothing_group: if smoothing != 0 {
                                Some(smoothing)
                            } else {
                                None
                            },
                            material_name: match &pending_material {
                                Some(m) => Some(m.clone()),
                                None => None,
                            },
                            vertex_references: refs,
                        };
                        faces.push(face);
                        face_id = faces.len();
                    },
                    Err(true) => {
                        return Err(
                            ParseError::InvalidFaceData(
                                line_no,
                                String::from_str(
                                    "Illegal to give vertex texture for some vertices, but not all",
                                ),
                            ),
                        );
                    },
                    Err(false) => {
                        return Err(
                            ParseError::InvalidToken(
                                line_no,
                                String::from_str("Malformed face statement"),
                            ),
                        );
                    },
                }
            } else if token_is(cmd, "s") {
                match parse_smoothing_group(args) {
                    Some(g) => smoothing = g,
                    None => {
                        return Err(
                            ParseError::InvalidToken(
                                line_no,
                                String::from_str("Invalid smoothing group statement"),
                            ),
                        );
                    },
                }
            } else if token_is(cmd, "o") {
                if tokens.len() >= 2 {
                    name = Some(bytes_to_string(tokens[1].as_slice()));
                }
            } else if token_is(cmd, "usemtl") {
                if tokens.len() > 3 {
                    return Err(
                        ParseError::InvalidFaceMaterial(
                            line_no,
                            String::from_str("You can only specify one material"),
                        ),
                    );
                }
            } else if token_is(cmd, "mtllib") {
                let mut libs: Vec<String> = Vec::new();
                let mut k: usize = 0;
                while k < args.len()
                    invariant
                        0 <= k <= args@.len(),
                    decreases args@.len() - k,
                {
                    if !token_is(args[k].as_slice(), "mtllib") {
                        libs.push(bytes_to_string(args[k].as_slice()));
                    }
                    k = k + 1;
                }
                mtls = libs;
            } else if token_is(cmd, "cstype") || token_is(cmd, "deg") || token_is(cmd, "bmat")
                || token_is(cmd, "step") || token_is(cmd, "p") || token_is(cmd, "l")
                || token_is(cmd, "curv") || token_is(cmd, "curv2") || token_is(cmd, "surf")
                || token_is(cmd, "parm") || token_is(cmd, "trim") || token_is(cmd, "hole")
                || token_is(cmd, "scrv") || token_is(cmd, "sp") || token_is(cmd, "end")
                || token_is(cmd, "con") || token_is(cmd, "g") || token_is(cmd, "mg")
                || token_is(cmd, "bevel") || token_is(cmd, "c_interp") || token_is(
                cmd,
                "d_interp",
            ) || token_is(cmd, "lod") || token_is(cmd, "shadow_obj") || token_is(
                cmd,
                "trace_obj",
            ) || token_is(cmd, "ctech") || token_is(cmd, "stech") {
                let _accepted = todo("statement read and skipped");
            } else {
                return Err(
                    ParseError::InvalidToken(line_no, String::from_str("Unknown token")),
                );
            }
            pending_material = if token_is(cmd, "usemtl") && tokens.len() >= 2 {
                Some(bytes_to_string(tokens[1].as_slice()))
            } else {
                None
            };
            line_no = if line_no < usize::MAX {
                line_no + 1
            } else {
                line_no
            };
        }
        if e < n {
            pos = e + 1;
        } else {
            pos = n;
        }
    }
    if vertices.len() == 0 {
        return Err(ParseError::MissingVertices);
    }
    if faces.len() == 0 {
        return Err(ParseError::MissingFaces);
    }
    let total = faces.len();
    let mut k: usize = 0;
    while k < faces.len()
        invariant
            0 <= k <= faces@.len(),
            total == faces@.len(),
            forall|i: int| 0 <= i < faces@.len() ==> (#[trigger] faces@[i]).id == i,
            forall|i: int|
                0 <= i < faces@.len() ==> (#[trigger] faces@[i]).smoothing_group != Some(
                    0usize,
                ),
            forall|i: int|
                0 <= i < k ==> (#[trigger] faces@[i]).max_id == total && (
                faces@[i].vertex_references@.len() % 3 == 0
                    || faces@[i].vertex_references@.len() < 3),
            forall|i: int| 0 <= i < vertices@.len() ==> (#[trigger] vertices@[i]).wf(),
        decreases faces@.len() - k,
    {
        let tri = triangulate_face(&faces[k].vertex_references);
        proof {
            if faces@[k as int].vertex_references@.len() >= 3 {
                lemma_fan_mult3(faces@[k as int].vertex_references@, 1);
            }
        }
        let f = &mut faces[k];
        f.max_id = total;
        f.vertex_references = tri;
        k = k + 1;
    }
    Ok(
        OBJ {
            name,
            mtls_identifiers: mtls,
            vertices,
            vertices_texture: vts,
            vertices_normal: vns,
            vertices_parameter_space: vps,
            faces,
        },
    )
}

} // verus!

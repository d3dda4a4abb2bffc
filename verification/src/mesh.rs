//! Mesh generation: emits the visible faces of textured unit cubes as
//! triangle vertices.
//!
//! Vertex positions are chunk-local block corners (so they fit in small
//! integers; the renderer translates whole chunks), and texture coordinates
//! are texel offsets into the atlas. A block contributes one quad (two
//! triangles, six vertices) per visible face, in the fixed face order
//! (right, left, top, bottom, front, back) = (+x, -x, +y, -y, +z, -z).

use vstd::prelude::*;
use crate::block::BlockID;
use crate::block_texture_sides::{UVRect, UVFaces, UvAtlas, atlas_faces, uv_every_side,
    get_uv_every_side};
use crate::coords::{cell_x, cell_y, cell_z};

verus! {

/// The per-face visibility mask of one block, in the face order
/// (right, left, top, bottom, front, back).
pub type Sides = (bool, bool, bool, bool, bool, bool);

/// One packed vertex: chunk-local corner position and atlas texel coordinate.
#[derive(Clone, Copy, PartialEq, Eq, Structural, Debug)]
pub struct Vertex {
    pub x: u16,
    pub y: u16,
    pub z: u16,
    pub u: u16,
    pub v: u16,
}

/// A quad as two counter-clockwise triangles over its four corners
/// `a, b, c, d` (given counter-clockwise, starting at the corner that
/// samples the rectangle's minimum texel).
pub open spec fn quad_vertices(a: Vertex, b: Vertex, c: Vertex, d: Vertex) -> Seq<Vertex> {
    seq![a, b, c, c, d, a]
}

/// Builds a vertex from unbounded coordinates; callers keep them in range.
pub open spec fn vtx(x: int, y: int, z: int, u: int, v: int) -> Vertex {
    Vertex { x: x as u16, y: y as u16, z: z as u16, u: u as u16, v: v as u16 }
}

/// The +x face of the unit cube at local position `(x, y, z)`.
pub open spec fn right_face(x: int, y: int, z: int, r: UVRect) -> Seq<Vertex> {
    quad_vertices(
        vtx(x + 1, y, z + 1, r.u_min as int, r.v_min as int),
        vtx(x + 1, y, z, r.u_max as int, r.v_min as int),
        vtx(x + 1, y + 1, z, r.u_max as int, r.v_max as int),
        vtx(x + 1, y + 1, z + 1, r.u_min as int, r.v_max as int),
    )
}

/// The -x face of the unit cube at local position `(x, y, z)`.
pub open spec fn left_face(x: int, y: int, z: int, r: UVRect) -> Seq<Vertex> {
    quad_vertices(
        vtx(x, y, z, r.u_min as int, r.v_min as int),
        vtx(x, y, z + 1, r.u_max as int, r.v_min as int),
        vtx(x, y + 1, z + 1, r.u_max as int, r.v_max as int),
        vtx(x, y + 1, z, r.u_min as int, r.v_max as int),
    )
}

/// The +y face of the unit cube at local position `(x, y, z)`.
pub open spec fn top_face(x: int, y: int, z: int, r: UVRect) -> Seq<Vertex> {
    quad_vertices(
        vtx(x, y + 1, z + 1, r.u_min as int, r.v_min as int),
        vtx(x + 1, y + 1, z + 1, r.u_max as int, r.v_min as int),
        vtx(x + 1, y + 1, z, r.u_max as int, r.v_max as int),
        vtx(x, y + 1, z, r.u_min as int, r.v_max as int),
    )
}

/// The -y face of the unit cube at local position `(x, y, z)`.
pub open spec fn bottom_face(x: int, y: int, z: int, r: UVRect) -> Seq<Vertex> {
    quad_vertices(
        vtx(x, y, z, r.u_min as int, r.v_min as int),
        vtx(x + 1, y, z, r.u_max as int, r.v_min as int),
        vtx(x + 1, y, z + 1, r.u_max as int, r.v_max as int),
        vtx(x, y, z + 1, r.u_min as int, r.v_max as int),
    )
}

/// The +z face of the unit cube at local position `(x, y, z)`.
pub open spec fn front_face(x: int, y: int, z: int, r: UVRect) -> Seq<Vertex> {
    quad_vertices(
        vtx(x, y, z + 1, r.u_min as int, r.v_min as int),
        vtx(x + 1, y, z + 1, r.u_max as int, r.v_min as int),
        vtx(x + 1, y + 1, z + 1, r.u_max as int, r.v_max as int),
        vtx(x, y + 1, z + 1, r.u_min as int, r.v_max as int),
    )
}

/// The -z face of the unit cube at local position `(x, y, z)`.
pub open spec fn back_face(x: int, y: int, z: int, r: UVRect) -> Seq<Vertex> {
    quad_vertices(
        vtx(x + 1, y, z, r.u_min as int, r.v_min as int),
        vtx(x, y, z, r.u_max as int, r.v_min as int),
        vtx(x, y + 1, z, r.u_max as int, r.v_max as int),
        vtx(x + 1, y + 1, z, r.u_min as int, r.v_max as int),
    )
}

/// All visible faces of the unit cube at `(x, y, z)`: for each face whose
/// visibility bit is set, its quad, in the fixed face order.
pub open spec fn cube_vertices(x: int, y: int, z: int, uvf: UVFaces, sides: Sides) -> Seq<
    Vertex,
> {
    (if sides.0 {
        right_face(x, y, z, uvf.0)
    } else {
        Seq::empty()
    }) + (if sides.1 {
        left_face(x, y, z, uvf.1)
    } else {
        Seq::empty()
    }) + (if sides.2 {
        top_face(x, y, z, uvf.2)
    } else {
        Seq::empty()
    }) + (if sides.3 {
        bottom_face(x, y, z, uvf.3)
    } else {
        Seq::empty()
    }) + (if sides.4 {
        front_face(x, y, z, uvf.4)
    } else {
        Seq::empty()
    }) + (if sides.5 {
        back_face(x, y, z, uvf.5)
    } else {
        Seq::empty()
    })
}

/// The number of vertices a block with visibility mask `sides` emits:
/// six per visible face.
pub open spec fn side_count(sides: Sides) -> int {
    (if sides.0 {
        1int
    } else {
        0int
    }) + (if sides.1 {
        1int
    } else {
        0int
    }) + (if sides.2 {
        1int
    } else {
        0int
    }) + (if sides.3 {
        1int
    } else {
        0int
    }) + (if sides.4 {
        1int
    } else {
        0int
    }) + (if sides.5 {
        1int
    } else {
        0int
    })
}

/// Each emitted face is one quad of six vertices.
pub proof fn lemma_cube_vertices_len(x: int, y: int, z: int, uvf: UVFaces, sides: Sides)
    ensures
        cube_vertices(x, y, z, uvf, sides).len() == 6 * side_count(sides),
{
}

/// Appends the quad `a, b, c, d` as two triangles.
fn push_quad(out: &mut Vec<Vertex>, a: Vertex, b: Vertex, c: Vertex, d: Vertex)
    ensures
        final(out)@ == old(out)@ + quad_vertices(a, b, c, d),
{
    out.push(a);
    out.push(b);
    out.push(c);
    out.push(c);
    out.push(d);
    out.push(a);
    proof {
        assert(out@ =~= old(out)@ + quad_vertices(a, b, c, d));
    }
}

/// Writes the visible faces of one textured unit cube through the output
/// cursor and returns the number of vertices written. The hot path of the
/// mesher: it only appends to the caller's buffer.
#[verifier::rlimit(50)]
pub fn write_unit_cube(
    out: &mut Vec<Vertex>,
    x: u16,
    y: u16,
    z: u16,
    uvf: UVFaces,
    sides: Sides,
) -> (count: u32)
    requires
        x < 16,
        y < 16,
        z < 16,
    ensures
        final(out)@ == old(out)@ + cube_vertices(x as int, y as int, z as int, uvf, sides),
        count == cube_vertices(x as int, y as int, z as int, uvf, sides).len(),
{
    let mut count: u32 = 0;
    let x1: u16 = x + 1;
    let y1: u16 = y + 1;
    let z1: u16 = z + 1;
    let ghost xi = x as int;
    let ghost yi = y as int;
    let ghost zi = z as int;
    let ghost mut acc: Seq<Vertex> = Seq::empty();
    if sides.0 {
        push_quad(
            out,
            Vertex { x: x1, y, z: z1, u: uvf.0.u_min, v: uvf.0.v_min },
            Vertex { x: x1, y, z, u: uvf.0.u_max, v: uvf.0.v_min },
            Vertex { x: x1, y: y1, z, u: uvf.0.u_max, v: uvf.0.v_max },
            Vertex { x: x1, y: y1, z: z1, u: uvf.0.u_min, v: uvf.0.v_max },
        );
        count = count + 6;
    }
    proof {
        acc = acc + (if sides.0 {
            right_face(xi, yi, zi, uvf.0)
        } else {
            Seq::<Vertex>::empty()
        });
        assert(out@ =~= old(out)@ + acc);
    }
    if sides.1 {
        push_quad(
            out,
            Vertex { x, y, z, u: uvf.1.u_min, v: uvf.1.v_min },
            Vertex { x, y, z: z1, u: uvf.1.u_max, v: uvf.1.v_min },
            Vertex { x, y: y1, z: z1, u: uvf.1.u_max, v: uvf.1.v_max },
            Vertex { x, y: y1, z, u: uvf.1.u_min, v: uvf.1.v_max },
        );
        count = count + 6;
    }
    proof {
        acc = acc + (if sides.1 {
            left_face(xi, yi, zi, uvf.1)
        } else {
            Seq::<Vertex>::empty()
        });
        assert(out@ =~= old(out)@ + acc);
    }
    if sides.2 {
        push_quad(
            out,
            Vertex { x, y: y1, z: z1, u: uvf.2.u_min, v: uvf.2.v_min },
            Vertex { x: x1, y: y1, z: z1, u: uvf.2.u_max, v: uvf.2.v_min },
            Vertex { x: x1, y: y1, z, u: uvf.2.u_max, v: uvf.2.v_max },
            Vertex { x, y: y1, z, u: uvf.2.u_min, v: uvf.2.v_max },
        );
        count = count + 6;
    }
    proof {
        acc = acc + (if sides.2 {
            top_face(xi, yi, zi, uvf.2)
        } else {
            Seq::<Vertex>::empty()
        });
        assert(out@ =~= old(out)@ + acc);
    }
    if sides.3 {
        push_quad(
            out,
            Vertex { x, y, z, u: uvf.3.u_min, v: uvf.3.v_min },
            Vertex { x: x1, y, z, u: uvf.3.u_max, v: uvf.3.v_min },
            Vertex { x: x1, y, z: z1, u: uvf.3.u_max, v: uvf.3.v_max },
            Vertex { x, y, z: z1, u: uvf.3.u_min, v: uvf.3.v_max },
        );
        count = count + 6;
    }
    proof {
        acc = acc + (if sides.3 {
            bottom_face(xi, yi, zi, uvf.3)
        } else {
            Seq::<Vertex>::empty()
        });
        assert(out@ =~= old(out)@ + acc);
    }
    if sides.4 {
        push_quad(
            out,
            Vertex { x, y, z: z1, u: uvf.4.u_min, v: uvf.4.v_min },
            Vertex { x: x1, y, z: z1, u: uvf.4.u_max, v: uvf.4.v_min },
            Vertex { x: x1, y: y1, z: z1, u: uvf.4.u_max, v: uvf.4.v_max },
            Vertex { x, y: y1, z: z1, u: uvf.4.u_min, v: uvf.4.v_max },
        );
        count = count + 6;
    }
    proof {
        acc = acc + (if sides.4 {
            front_face(xi, yi, zi, uvf.4)
        } else {
            Seq::<Vertex>::empty()
        });
        assert(out@ =~= old(out)@ + acc);
    }
    if sides.5 {
        push_quad(
            out,
            Vertex { x: x1, y, z, u: uvf.5.u_min, v: uvf.5.v_min },
            Vertex { x, y, z, u: uvf.5.u_max, v: uvf.5.v_min },
            Vertex { x, y: y1, z, u: uvf.5.u_max, v: uvf.5.v_max },
            Vertex { x: x1, y: y1, z, u: uvf.5.u_min, v: uvf.5.v_max },
        );
        count = count + 6;
    }
    proof {
        acc = acc + (if sides.5 {
            back_face(xi, yi, zi, uvf.5)
        } else {
            Seq::<Vertex>::empty()
        });
        assert(out@ =~= old(out)@ + acc);
        assert(out@ =~= old(out)@ + cube_vertices(xi, yi, zi, uvf, sides));
        lemma_cube_vertices_len(xi, yi, zi, uvf, sides);
    }
    count
}

/// The vertices that the cell with flat index `i` contributes to its
/// chunk's mesh: nothing for `Air`, otherwise the visible faces of its
/// textured cube.
pub open spec fn cell_mesh(blocks: Seq<BlockID>, sides: Seq<Sides>, atlas: UvAtlas, i: int) -> Seq<
    Vertex,
> {
    if blocks[i] == BlockID::Air {
        Seq::empty()
    } else {
        cube_vertices(
            cell_x(i),
            cell_y(i),
            cell_z(i),
            uv_every_side(atlas_faces(atlas, blocks[i])),
            sides[i],
        )
    }
}

/// The concatenated vertices of the first `n` cells, walked in the fixed
/// cell order (y-major, then z, then x).
pub open spec fn mesh_prefix(
    blocks: Seq<BlockID>,
    sides: Seq<Sides>,
    atlas: UvAtlas,
    n: int,
) -> Seq<Vertex>
    decreases n,
{
    if n <= 0 {
        Seq::empty()
    } else {
        mesh_prefix(blocks, sides, atlas, n - 1) + cell_mesh(blocks, sides, atlas, n - 1)
    }
}

/// The full vertex data of one chunk, given its blocks and the per-cell
/// visibility snapshot.
pub open spec fn chunk_mesh(blocks: Seq<BlockID>, sides: Seq<Sides>, atlas: UvAtlas) -> Seq<
    Vertex,
> {
    mesh_prefix(blocks, sides, atlas, 4096)
}

/// Every cell contributes at most 36 vertices, so a mesh prefix is bounded
/// by 36 vertices per cell.
proof fn lemma_mesh_prefix_len(blocks: Seq<BlockID>, sides: Seq<Sides>, atlas: UvAtlas, n: int)
    requires
        0 <= n,
    ensures
        mesh_prefix(blocks, sides, atlas, n).len() <= 36 * n,
    decreases n,
{
    if n > 0 {
        lemma_mesh_prefix_len(blocks, sides, atlas, n - 1);
        if blocks[n - 1] != BlockID::Air {
            lemma_cube_vertices_len(
                cell_x(n - 1),
                cell_y(n - 1),
                cell_z(n - 1),
                uv_every_side(atlas_faces(atlas, blocks[n - 1])),
                sides[n - 1],
            );
        }
    }
}

/// Builds the full vertex data of one chunk: walks the 4096 cells in the
/// fixed cell order, skips `Air`, and emits each remaining block's visible
/// faces against its visibility snapshot and its atlas rectangles.
pub fn build_chunk_mesh(blocks: &Vec<BlockID>, sides: &Vec<Sides>, atlas: &UvAtlas) -> (mesh: Vec<
    Vertex,
>)
    requires
        blocks@.len() == 4096,
        sides@.len() == 4096,
    ensures
        mesh@ == chunk_mesh(blocks@, sides@, *atlas),
        mesh@.len() <= 147456,
{
    let mut mesh: Vec<Vertex> = Vec::new();
    let mut i: usize = 0;
    while i < 4096
        invariant
            blocks@.len() == 4096,
            sides@.len() == 4096,
            i <= 4096,
            mesh@ == mesh_prefix(blocks@, sides@, *atlas, i as int),
            mesh@.len() <= 36 * i,
        decreases 4096 - i,
    {
        let ghost pre = mesh@;
        let b = blocks[i];
        if b != BlockID::Air {
            let x = (i % 16) as u16;
            let z = ((i / 16) % 16) as u16;
            let y = (i / 256) as u16;
            let uvf = get_uv_every_side(atlas.faces_of(b));
            let s = sides[i];
            write_unit_cube(&mut mesh, x, y, z, uvf, s);
            proof {
                assert(x as int == cell_x(i as int));
                assert(y as int == cell_y(i as int));
                assert(z as int == cell_z(i as int));
                assert(mesh@ == pre + cell_mesh(blocks@, sides@, *atlas, i as int));
                lemma_cube_vertices_len(x as int, y as int, z as int, uvf, s);
            }
        } else {
            proof {
                assert(mesh@ =~= pre + cell_mesh(blocks@, sides@, *atlas, i as int));
            }
        }
        i = i + 1;
        proof {
            assert(mesh@ == mesh_prefix(blocks@, sides@, *atlas, i as int));
        }
    }
    mesh
}

/// A chunk filled with one non-`Air` block, every face of every block
/// visible, meshes to exactly 6 faces of 6 vertices per block: the bound
/// a fully surrounded-by-unloaded-neighbours solid chunk reaches.
pub proof fn lemma_mesh_full_visible(
    blocks: Seq<BlockID>,
    sides: Seq<Sides>,
    atlas: UvAtlas,
    b: BlockID,
)
    requires
        blocks.len() == 4096,
        sides.len() == 4096,
        b != BlockID::Air,
        forall|i: int| 0 <= i < 4096 ==> blocks[i] == b,
        forall|i: int| 0 <= i < 4096 ==> sides[i] == (true, true, true, true, true, true),
    ensures
        chunk_mesh(blocks, sides, atlas).len() == 4096 * 36,
{
    lemma_mesh_prefix_full_visible(blocks, sides, atlas, b, 4096);
}

/// Induction step of [`lemma_mesh_full_visible`].
proof fn lemma_mesh_prefix_full_visible(
    blocks: Seq<BlockID>,
    sides: Seq<Sides>,
    atlas: UvAtlas,
    b: BlockID,
    n: int,
)
    requires
        blocks.len() == 4096,
        sides.len() == 4096,
        b != BlockID::Air,
        forall|i: int| 0 <= i < 4096 ==> blocks[i] == b,
        forall|i: int| 0 <= i < 4096 ==> sides[i] == (true, true, true, true, true, true),
        0 <= n <= 4096,
    ensures
        mesh_prefix(blocks, sides, atlas, n).len() == n * 36,
    decreases n,
{
    if n > 0 {
        lemma_mesh_prefix_full_visible(blocks, sides, atlas, b, n - 1);
        lemma_cube_vertices_len(
            cell_x(n - 1),
            cell_y(n - 1),
            cell_z(n - 1),
            uv_every_side(atlas_faces(atlas, b)),
            sides[n - 1],
        );
    }
}

/// A chunk of pure `Air` meshes to nothing.
pub proof fn lemma_mesh_all_air(blocks: Seq<BlockID>, sides: Seq<Sides>, atlas: UvAtlas)
    requires
        blocks.len() == 4096,
        forall|i: int| 0 <= i < 4096 ==> blocks[i] == BlockID::Air,
    ensures
        chunk_mesh(blocks, sides, atlas).len() == 0,
{
    lemma_mesh_prefix_all_air(blocks, sides, atlas, 4096);
}

/// Induction step of [`lemma_mesh_all_air`].
proof fn lemma_mesh_prefix_all_air(
    blocks: Seq<BlockID>,
    sides: Seq<Sides>,
    atlas: UvAtlas,
    n: int,
)
    requires
        blocks.len() == 4096,
        forall|i: int| 0 <= i < 4096 ==> blocks[i] == BlockID::Air,
        0 <= n <= 4096,
    ensures
        mesh_prefix(blocks, sides, atlas, n).len() == 0,
    decreases n,
{
    if n > 0 {
        lemma_mesh_prefix_all_air(blocks, sides, atlas, n - 1);
    }
}

} // verus!

use vstd::prelude::*;

use std::collections::BTreeMap;

use crate::body::{BodyId, BodyKind};
use crate::math::Vec3i;
use crate::oriented_box::{
    OrientedBox3d, OrientedBoxError3d, oriented_box_vertices, spec_vertices, vertices_error,
};
use crate::rigid_box::RigidBox3d;
use crate::rotational_sweep::RotationalSweepBounds3d;

verus! {

broadcast use vstd::std_specs::btree::group_btree_axioms;

/// Version of the retained fixed-geometry preparation representation.
pub const FIXED_GEOMETRY_PREPARATION_VERSION: u32 = 1;

/// Whether immutable scene geometry is prepared only inside ordinary queries or retained once per
/// fixed body for reuse.
#[derive(Clone, Copy, Debug, PartialEq, Eq, Structural)]
pub enum FixedGeometryPreparationMode3d {
    Runtime,
    PrepareAtLoad,
}

impl Default for FixedGeometryPreparationMode3d {
    fn default() -> (mode: FixedGeometryPreparationMode3d)
        ensures
            mode == FixedGeometryPreparationMode3d::Runtime,
    {
        FixedGeometryPreparationMode3d::Runtime
    }
}

/// Observable preparation evidence over the retained genuine fixed bodies.
#[derive(Clone, Copy, Debug, PartialEq, Eq, Structural)]
pub struct FixedGeometryPreparationStats3d {
    pub mode: FixedGeometryPreparationMode3d,
    pub representation_version: u32,
    pub prepared_body_count: usize,
    pub total_preparations: u64,
    pub retained_bytes: usize,
}

/// The smallest and largest coordinate `axis` over the first `n` vertices.
pub open spec fn vertex_extreme(vertices: Seq<Vec3i>, axis: int, n: nat, largest: bool) -> int
    decreases n,
{
    if n <= 1 {
        vertices[0].spec_component(axis) as int
    } else {
        let previous = vertex_extreme(vertices, axis, (n - 1) as nat, largest);
        let value = vertices[n - 1].spec_component(axis) as int;
        if largest {
            if value > previous {
                value
            } else {
                previous
            }
        } else {
            if value < previous {
                value
            } else {
                previous
            }
        }
    }
}

/// The exact axis-aligned envelope of the quantized vertices of `shape`.
pub open spec fn exact_bounds_of(shape: OrientedBox3d) -> Result<RotationalSweepBounds3d, OrientedBoxError3d> {
    match vertices_error(shape) {
        Some(error) => Err(error),
        None => {
            let v = spec_vertices(shape);
            Ok(
                RotationalSweepBounds3d {
                    minimum: [
                        vertex_extreme(v, 0, 8, false) as i64,
                        vertex_extreme(v, 1, 8, false) as i64,
                        vertex_extreme(v, 2, 8, false) as i64,
                    ],
                    maximum: [
                        vertex_extreme(v, 0, 8, true) as i64,
                        vertex_extreme(v, 1, 8, true) as i64,
                        vertex_extreme(v, 2, 8, true) as i64,
                    ],
                },
            )
        },
    }
}

/// The exact envelope of a shape's quantized vertices.
pub fn exact_bounds(shape: OrientedBox3d) -> (result: Result<RotationalSweepBounds3d, OrientedBoxError3d>)
    ensures
        result == exact_bounds_of(shape),
{
    let vertices = match oriented_box_vertices(shape) {
        Ok(vertices) => vertices,
        Err(error) => return Err(error),
    };
    proof {
        crate::oriented_box::lemma_vertices_are_spec(shape, vertices@);
    }
    let first = vertices[0];
    let (mut min_x, mut min_y, mut min_z) = (first.x as i64, first.y as i64, first.z as i64);
    let (mut max_x, mut max_y, mut max_z) = (min_x, min_y, min_z);
    let mut index: usize = 1;
    while index < 8
        invariant
            1 <= index <= 8,
            vertices@ == spec_vertices(shape),
            min_x == vertex_extreme(vertices@, 0, index as nat, false),
            min_y == vertex_extreme(vertices@, 1, index as nat, false),
            min_z == vertex_extreme(vertices@, 2, index as nat, false),
            max_x == vertex_extreme(vertices@, 0, index as nat, true),
            max_y == vertex_extreme(vertices@, 1, index as nat, true),
            max_z == vertex_extreme(vertices@, 2, index as nat, true),
        decreases 8 - index,
    {
        let vertex = vertices[index];
        let (x, y, z) = (vertex.x as i64, vertex.y as i64, vertex.z as i64);
        if x < min_x {
            min_x = x;
        }
        if y < min_y {
            min_y = y;
        }
        if z < min_z {
            min_z = z;
        }
        if x > max_x {
            max_x = x;
        }
        if y > max_y {
            max_y = y;
        }
        if z > max_z {
            max_z = z;
        }
        index = index + 1;
    }
    let minimum = [min_x, min_y, min_z];
    let maximum = [max_x, max_y, max_z];
    let bounds = RotationalSweepBounds3d { minimum, maximum };
    proof {
        let expected = exact_bounds_of(shape)->Ok_0;
        assert(bounds.minimum =~= expected.minimum);
        assert(bounds.maximum =~= expected.maximum);
    }
    Ok(bounds)
}

/// Geometry retained for one fixed body: its quantized shape and exact envelope.
#[derive(Clone, Copy, Debug, PartialEq, Eq)]
pub struct PreparedFixedGeometry3d {
    pub shape: OrientedBox3d,
    pub bounds: Result<RotationalSweepBounds3d, OrientedBoxError3d>,
}

/// Retained preparation of genuine fixed scene bodies, keyed by body id.
#[derive(Debug)]
pub struct FixedGeometryPreparationCache3d {
    mode: FixedGeometryPreparationMode3d,
    prepared: BTreeMap<u64, PreparedFixedGeometry3d>,
    total_preparations: u64,
}

impl FixedGeometryPreparationCache3d {
    pub closed spec fn spec_mode(self) -> FixedGeometryPreparationMode3d {
        self.mode
    }

    /// The retained shapes by body id.
    pub closed spec fn spec_prepared(self) -> Map<u64, OrientedBox3d> {
        self.prepared@.map_values(|entry: PreparedFixedGeometry3d| entry.shape)
    }

    pub closed spec fn spec_total_preparations(self) -> u64 {
        self.total_preparations
    }

    /// Every retained envelope is the exact envelope of its retained shape.
    #[verifier::type_invariant]
    spec fn retained_bounds_exact(self) -> bool {
        forall|id: u64|
            #![trigger self.prepared@[id]]
            self.prepared@.contains_key(id) ==> self.prepared@[id].bounds == exact_bounds_of(
                self.prepared@[id].shape,
            )
    }

    pub fn new() -> (cache: FixedGeometryPreparationCache3d)
        ensures
            cache.spec_mode() == FixedGeometryPreparationMode3d::Runtime,
            cache.spec_prepared() == Map::<u64, OrientedBox3d>::empty(),
            cache.spec_total_preparations() == 0,
    {
        let cache = FixedGeometryPreparationCache3d {
            mode: FixedGeometryPreparationMode3d::Runtime,
            prepared: BTreeMap::new(),
            total_preparations: 0,
        };
        assert(cache.spec_prepared() =~= Map::<u64, OrientedBox3d>::empty());
        cache
    }

}

impl Default for FixedGeometryPreparationCache3d {
    fn default() -> (cache: FixedGeometryPreparationCache3d)
        ensures
            cache.spec_mode() == FixedGeometryPreparationMode3d::Runtime,
            cache.spec_prepared() == Map::<u64, OrientedBox3d>::empty(),
            cache.spec_total_preparations() == 0,
    {
        FixedGeometryPreparationCache3d::new()
    }
}

impl FixedGeometryPreparationCache3d {
    /// Retains the shape and exact envelope of a fixed body, counting a preparation when the
    /// retained shape is new or changed.
    fn prepare_fixed(&mut self, rigid_box: &RigidBox3d)
        ensures
            final(self).spec_mode() == old(self).spec_mode(),
            final(self).spec_prepared() == old(self).spec_prepared().insert(
                rigid_box.body.id.0,
                rigid_box.spec_oriented_box(),
            ),
            final(self).spec_total_preparations() == if old(self).spec_prepared().contains_key(
                rigid_box.body.id.0,
            ) && old(self).spec_prepared()[rigid_box.body.id.0] == rigid_box.spec_oriented_box() {
                old(self).spec_total_preparations() as int
            } else if old(self).spec_total_preparations() == u64::MAX {
                u64::MAX as int
            } else {
                old(self).spec_total_preparations() + 1
            },
    {
        proof {
            use_type_invariant(&*self);
        }
        let id = rigid_box.body.id.0;
        let shape = rigid_box.oriented_box();
        let prepared = PreparedFixedGeometry3d { shape, bounds: exact_bounds(shape) };
        let changed = match self.prepared.get(&id) {
            Some(previous) => previous.shape != shape,
            None => true,
        };
        let mut retained = BTreeMap::new();
        std::mem::swap(&mut retained, &mut self.prepared);
        retained.insert(id, prepared);
        proof {
            assert forall|key: u64| #![trigger retained@[key]]
                retained@.contains_key(key) implies retained@[key].bounds == exact_bounds_of(
                retained@[key].shape,
            ) by {
                if key != id {
                    assert(old(self).prepared@.contains_key(key));
                }
            }
        }
        self.prepared = retained;
        if changed {
            self.total_preparations = self.total_preparations.saturating_add(1);
        }
        proof {
            assert(self.spec_prepared() =~= old(self).spec_prepared().insert(id, shape));
        }
    }

    /// Switches the preparation mode; prepare-at-load retains every fixed body of `boxes`.
    pub fn set_mode(&mut self, mode: FixedGeometryPreparationMode3d, boxes: &[RigidBox3d])
        ensures
            final(self).spec_mode() == mode,
            forall|id: u64|
                final(self).spec_prepared().contains_key(id) <==> (mode
                    == FixedGeometryPreparationMode3d::PrepareAtLoad && exists|k: int|
                    0 <= k < boxes@.len() && (#[trigger] boxes@[k]).body.id.0 == id
                        && boxes@[k].body.kind == BodyKind::Fixed),
            final(self).spec_total_preparations() >= old(self).spec_total_preparations(),
    {
        self.prepared = BTreeMap::new();
        self.mode = mode;
        if mode == FixedGeometryPreparationMode3d::PrepareAtLoad {
            let mut index: usize = 0;
            while index < boxes.len()
                invariant
                    0 <= index <= boxes.len(),
                    self.spec_mode() == mode,
                    mode == FixedGeometryPreparationMode3d::PrepareAtLoad,
                    self.spec_total_preparations() >= old(self).spec_total_preparations(),
                    forall|id: u64|
                        self.spec_prepared().contains_key(id) <==> exists|k: int|
                            0 <= k < index && (#[trigger] boxes@[k]).body.id.0 == id
                                && boxes@[k].body.kind == BodyKind::Fixed,
                decreases boxes.len() - index,
            {
                if boxes[index].body.kind == BodyKind::Fixed {
                    self.prepare_fixed(&boxes[index]);
                }
                proof {
                    assert forall|id: u64|
                        self.spec_prepared().contains_key(id) <==> exists|k: int|
                            0 <= k < index + 1 && (#[trigger] boxes@[k]).body.id.0 == id
                                && boxes@[k].body.kind == BodyKind::Fixed by {
                        if exists|k: int|
                            0 <= k < index + 1 && (#[trigger] boxes@[k]).body.id.0 == id
                                && boxes@[k].body.kind == BodyKind::Fixed {
                            let k = choose|k: int|
                                0 <= k < index + 1 && (#[trigger] boxes@[k]).body.id.0 == id
                                    && boxes@[k].body.kind == BodyKind::Fixed;
                            if k < index {
                                assert(exists|j: int|
                                    0 <= j < index && (#[trigger] boxes@[j]).body.id.0 == id
                                        && boxes@[j].body.kind == BodyKind::Fixed);
                            }
                        }
                    }
                }
                index = index + 1;
            }
        } else {
            assert(self.spec_prepared() =~= Map::<u64, OrientedBox3d>::empty());
        }
    }

    /// Retains a newly added fixed body in prepare-at-load mode.
    pub fn register_fixed(&mut self, rigid_box: &RigidBox3d)
        ensures
            final(self).spec_mode() == old(self).spec_mode(),
            if old(self).spec_mode() == FixedGeometryPreparationMode3d::PrepareAtLoad
                && rigid_box.body.kind == BodyKind::Fixed {
                final(self).spec_prepared() == old(self).spec_prepared().insert(
                    rigid_box.body.id.0,
                    rigid_box.spec_oriented_box(),
                )
            } else {
                final(self).spec_prepared() == old(self).spec_prepared()
                    && final(self).spec_total_preparations() == old(self).spec_total_preparations()
            },
    {
        if self.mode == FixedGeometryPreparationMode3d::PrepareAtLoad && rigid_box.body.kind
            == BodyKind::Fixed {
            self.prepare_fixed(rigid_box);
        }
    }

    /// Drops the retained preparation of a removed body.
    pub fn unregister(&mut self, id: BodyId)
        ensures
            final(self).spec_mode() == old(self).spec_mode(),
            final(self).spec_prepared() == old(self).spec_prepared().remove(id.0),
            final(self).spec_total_preparations() == old(self).spec_total_preparations(),
    {
        proof {
            use_type_invariant(&*self);
        }
        let mut retained = BTreeMap::new();
        std::mem::swap(&mut retained, &mut self.prepared);
        retained.remove(&id.0);
        proof {
            assert forall|key: u64| #![trigger retained@[key]]
                retained@.contains_key(key) implies retained@[key].bounds == exact_bounds_of(
                retained@[key].shape,
            ) by {
                assert(old(self).prepared@.contains_key(key));
            }
        }
        self.prepared = retained;
        proof {
            assert(self.spec_prepared() =~= old(self).spec_prepared().remove(id.0));
        }
    }

    pub fn stats(&self) -> (stats: FixedGeometryPreparationStats3d)
        ensures
            stats.mode == self.spec_mode(),
            stats.representation_version == FIXED_GEOMETRY_PREPARATION_VERSION,
            stats.prepared_body_count == self.spec_prepared().len(),
            stats.total_preparations == self.spec_total_preparations(),
            stats.retained_bytes == if stats.prepared_body_count * vstd::layout::size_of::<
                PreparedFixedGeometry3d,
            >() > usize::MAX {
                usize::MAX as int
            } else {
                stats.prepared_body_count * vstd::layout::size_of::<PreparedFixedGeometry3d>()
            },
    {
        let count = self.prepared.len();
        let size = core::mem::size_of::<PreparedFixedGeometry3d>();
        proof {
            assert(self.spec_prepared().dom() =~= self.prepared@.dom());
        }
        let retained_bytes = if count > 0 && size > usize::MAX / count {
            proof {
                assert(count * size > usize::MAX) by (nonlinear_arith)
                    requires
                        count > 0,
                        size > usize::MAX / count,
                ;
            }
            usize::MAX
        } else {
            proof {
                if count > 0 {
                    assert(count * size <= usize::MAX) by (nonlinear_arith)
                        requires
                            count > 0,
                            size <= usize::MAX / count,
                    ;
                }
            }
            count * size
        };
        FixedGeometryPreparationStats3d {
            mode: self.mode,
            representation_version: FIXED_GEOMETRY_PREPARATION_VERSION,
            prepared_body_count: count,
            total_preparations: self.total_preparations,
            retained_bytes,
        }
    }
}

} // verus!

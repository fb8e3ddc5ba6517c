use physics_engine::{
    AngularState3d, AngularVelocity3d, BodyId, BodyKind, ORIENTATION_SCALE, Orientation3d,
    RigidBody, RigidBox3d, RotatingWorld3d, RotatingWorldConfig3d, Vec3i, obb_contact_seed,
};

fn rotating(body: RigidBody) -> RigidBox3d {
    RigidBox3d::new(
        body,
        AngularState3d::new(Orientation3d::identity(), AngularVelocity3d::default()),
    )
    .expect("valid box")
}

fn rotated(body: RigidBody, index: i32) -> RigidBox3d {
    let orientation = Orientation3d::new(
        ORIENTATION_SCALE / (index + 3),
        ORIENTATION_SCALE / (index + 5),
        -ORIENTATION_SCALE / (index + 7),
        ORIENTATION_SCALE,
    )
    .normalized()
    .expect("valid deterministic orientation");
    RigidBox3d::new(
        body,
        AngularState3d::new(orientation, AngularVelocity3d::default()),
    )
    .expect("valid rotated box")
}

fn world_of(boxes: &[RigidBox3d]) -> RotatingWorld3d {
    let mut world = RotatingWorld3d::new(RotatingWorldConfig3d {
        gravity: Vec3i::zero(),
        ..RotatingWorldConfig3d::default()
    });
    for rigid_box in boxes {
        world.add_box(rigid_box.clone()).expect("valid body");
    }
    world
}

fn assert_dynamic_contacts_match_exact_oracle(boxes: &[RigidBox3d]) {
    let world = world_of(boxes);
    for subject in boxes
        .iter()
        .filter(|rigid_box| rigid_box.body().kind() == BodyKind::Dynamic)
    {
        let mut expected = boxes
            .iter()
            .filter(|candidate| candidate.body().id() != subject.body().id())
            .filter_map(|candidate| {
                obb_contact_seed(subject.oriented_box(), candidate.oriented_box())
                    .expect("valid exact query")
                    .map(|contact| (candidate.body().id(), contact.axis))
            })
            .collect::<Vec<_>>();
        expected.sort_by_key(|(id, _)| *id);
        let actual = world
            .body_contacts(subject.body().id())
            .expect("dynamic body contacts")
            .iter()
            .map(|entry| (entry.other, entry.axis))
            .collect::<Vec<_>>();
        assert_eq!(actual, expected);
    }
}

#[test]
fn current_contact_graph_matches_sparse_stacked_and_rotated_oracles() {
    let sparse = (0..24_u64)
        .map(|index| {
            rotating(RigidBody::dynamic(
                BodyId(index + 1),
                Vec3i::new(i32::try_from(index).expect("small index") * 20, 0, 0),
                Vec3i::zero(),
                Vec3i::new(2, 2, 2),
            ))
        })
        .collect::<Vec<_>>();
    assert_dynamic_contacts_match_exact_oracle(&sparse);

    let mut stacked = vec![rotating(RigidBody::fixed(
        BodyId(500),
        Vec3i::new(0, -2, 0),
        Vec3i::new(20, 2, 20),
    ))];
    stacked.extend((0..12_u64).map(|index| {
        rotating(RigidBody::dynamic(
            BodyId(index + 1),
            Vec3i::new(0, 2 + i32::try_from(index).expect("small index") * 4, 0),
            Vec3i::zero(),
            Vec3i::new(2, 2, 2),
        ))
    }));
    assert_dynamic_contacts_match_exact_oracle(&stacked);

    let rotated = (0..18_u64)
        .map(|index| {
            rotated(
                RigidBody::dynamic(
                    BodyId(index + 1),
                    Vec3i::new(
                        i32::try_from(index % 6).expect("small x") * 4,
                        i32::try_from(index / 6).expect("small y") * 4,
                        0,
                    ),
                    Vec3i::zero(),
                    Vec3i::new(2, 2, 2),
                ),
                i32::try_from(index % 5).expect("small orientation index") + 1,
            )
        })
        .collect::<Vec<_>>();
    assert_dynamic_contacts_match_exact_oracle(&rotated);
}

#[test]
fn body_current_contacts_keep_stable_neighbor_order() {
    let subject = rotating(RigidBody::dynamic(
        BodyId(50),
        Vec3i::zero(),
        Vec3i::zero(),
        Vec3i::new(2, 2, 2),
    ));
    let boxes = vec![
        rotating(RigidBody::fixed(
            BodyId(90),
            Vec3i::new(4, 0, 0),
            Vec3i::new(2, 2, 2),
        )),
        rotating(RigidBody::fixed(
            BodyId(2),
            Vec3i::new(0, -4, 0),
            Vec3i::new(2, 2, 2),
        )),
        subject.clone(),
    ];
    let actual = world_of(&boxes)
        .body_contacts(subject.body().id())
        .expect("body contacts");
    assert_eq!(
        actual.iter().map(|entry| entry.other).collect::<Vec<_>>(),
        vec![BodyId(2), BodyId(90)]
    );
}

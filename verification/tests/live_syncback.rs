use librojo::live_syncback::{plan_service_layout, ChunkLayoutError, ServiceChunkCounts};

fn chunk(name: &str, children: u32, carriers: u32, refs: Vec<(&str, u32)>) -> ServiceChunkCounts {
    ServiceChunkCounts {
        class_name: name.to_string(),
        child_count: children,
        ref_target_count: carriers,
        refs: refs.into_iter().map(|(n, i)| (n.to_string(), i)).collect(),
    }
}

#[test]
fn layout_of_two_services() {
    let chunks = vec![
        chunk("Workspace", 2, 1, vec![("PrimaryPart", 1), ("OutOfRange", 2), ("Zero", 0)]),
        chunk("Lighting", 2, 0, vec![]),
    ];
    let layouts = match plan_service_layout(5, &chunks) {
        Ok(l) => l,
        Err(e) => panic!("{}", e.message()),
    };
    assert_eq!(layouts.len(), 2);
    assert_eq!((layouts[0].children_start, layouts[0].carriers_start, layouts[0].end), (0, 2, 3));
    assert_eq!(layouts[0].refs, vec![("PrimaryPart".to_string(), 2)]);
    assert_eq!((layouts[1].children_start, layouts[1].carriers_start, layouts[1].end), (3, 5, 5));
    assert!(layouts[1].refs.is_empty());
}

#[test]
fn layout_of_no_services_and_empty_blob() {
    let layouts = plan_service_layout(0, &Vec::new());
    assert!(matches!(layouts, Ok(ref l) if l.is_empty()));
}

#[test]
fn layout_fails_when_service_claims_too_much() {
    let chunks = vec![chunk("Workspace", 2, 1, vec![]), chunk("Lighting", 2, 0, vec![])];
    match plan_service_layout(4, &chunks) {
        Err(e @ ChunkLayoutError::TooFewInstances { .. }) => {
            assert_eq!(e.message(), "Service 'Lighting' claims 2 children + 0 carriers but only 1 instances remain in blob");
        }
        _ => panic!("expected an error"),
    }
}

#[test]
fn layout_fails_when_blob_has_leftovers() {
    let chunks = vec![chunk("Workspace", 2, 1, vec![]), chunk("Lighting", 2, 0, vec![])];
    match plan_service_layout(6, &chunks) {
        Err(e @ ChunkLayoutError::CountMismatch { .. }) => {
            assert_eq!(e.message(), "Service chunks account for 5 instances but rbxm blob contains 6");
        }
        _ => panic!("expected an error"),
    }
}

#[test]
fn layout_fails_on_huge_counts_without_overflow() {
    let chunks = vec![chunk("Workspace", u32::MAX, u32::MAX, vec![])];
    assert!(matches!(plan_service_layout(3, &chunks), Err(ChunkLayoutError::TooFewInstances { remaining: 3, .. })));
}

use parsec::{PackedEvent, Parsec, PeerId};

const A: PeerId = 1;
const B: PeerId = 2;
const C: PeerId = 3;
const D: PeerId = 4;

fn short_name(creator: PeerId, index: u64) -> String {
    let letter = match creator {
        A => "A",
        B => "B",
        C => "C",
        _ => "D",
    };
    format!("{letter}_{index}")
}

// Carol's graph: the events of Alice, Bob, Carol and Dave in the order in
// which Carol came to know them.
fn carol() -> (Parsec, Vec<PackedEvent>) {
    let mut parsec = Parsec::new(C, &vec![A, B, C, D]).unwrap();
    let mut events: Vec<PackedEvent> = Vec::new();
    let c_0 = PackedEvent::new_initial(C);
    let a_0 = PackedEvent::new_initial(A);
    let a_1 = PackedEvent::new_from_observation(A, a_0.hash(), 70);
    let b_0 = PackedEvent::new_initial(B);
    let b_1 = PackedEvent::new_from_request(B, b_0.hash(), a_1.hash());
    let c_1 = PackedEvent::new_from_request(C, c_0.hash(), a_0.hash());
    let b_2 = PackedEvent::new_from_observation(B, b_1.hash(), 70);
    let d_0 = PackedEvent::new_initial(D);
    let d_1 = PackedEvent::new_from_observation(D, d_0.hash(), 71);
    let d_2 = PackedEvent::new_from_request(D, d_1.hash(), b_2.hash());
    let c_2 = PackedEvent::new_from_response(C, c_1.hash(), d_1.hash());
    let b_3 = PackedEvent::new_from_response(B, b_2.hash(), d_2.hash());
    let a_2 = PackedEvent::new_from_request(A, a_1.hash(), c_2.hash());
    let b_4 = PackedEvent::new_from_observation(B, b_3.hash(), 71);
    for event in [a_0, a_1, b_0, b_1, c_1, b_2, d_0, d_1, d_2, c_2, b_3, a_2, b_4] {
        parsec.add_event(event).unwrap();
        events.push(event);
    }
    (parsec, events)
}

fn find_event_by_short_name(parsec: &Parsec, name: &str) -> Option<usize> {
    parsec
        .graph
        .events
        .iter()
        .position(|event| short_name(event.creator(), event.index) == name)
}

#[test]
fn ancestors_iterator() {
    let (parsec, _) = carol();
    let graph = &parsec.graph;

    let event = find_event_by_short_name(&parsec, "B_4").unwrap();

    let expected = vec![
        "B_4", "B_3", "D_2", "D_1", "D_0", "B_2", "B_1", "B_0", "A_1", "A_0",
    ];

    let mut actual_names = Vec::new();
    let mut actual_indices = Vec::new();

    for at in graph.ancestors(event) {
        let event = &graph.events[at];
        actual_names.push(short_name(event.creator(), event.index));
        actual_indices.push(event.topological_index());
    }

    assert_eq!(actual_names, expected);

    // Assert the events are yielded in reverse topological order.
    let mut sorted_indices = actual_indices.clone();
    sorted_indices.sort_by(|a, b| b.cmp(a));

    assert_eq!(actual_indices, sorted_indices);
}

#[test]
fn ancestors_of_a_first_event_are_itself() {
    let (parsec, _) = carol();
    assert_eq!(parsec.graph.ancestors(0), vec![0]);
    let a_0 = find_event_by_short_name(&parsec, "A_0").unwrap();
    assert_eq!(parsec.graph.ancestors(a_0), vec![a_0]);
}

#[test]
fn an_ancestor_reached_twice_is_yielded_once() {
    let (parsec, _) = carol();
    // A_2 reaches A_0 through A_1 and through C_1.
    let a_2 = find_event_by_short_name(&parsec, "A_2").unwrap();
    let names: Vec<String> = parsec
        .graph
        .ancestors(a_2)
        .into_iter()
        .map(|at| short_name(parsec.graph.events[at].creator(), parsec.graph.events[at].index))
        .collect();
    assert_eq!(names, vec!["A_2", "C_2", "D_1", "D_0", "C_1", "A_1", "A_0", "C_0"]);
}

#[test]
fn indices_follow_the_self_parent() {
    let (parsec, _) = carol();
    for event in parsec.graph.events.iter() {
        match event.self_parent() {
            None => assert_eq!(event.index, 0),
            Some(hash) => {
                let parent = parsec.graph.get(hash).unwrap();
                assert_eq!(event.index, parent.index + 1);
                assert_eq!(event.creator(), parent.creator());
            }
        }
    }
}

#[test]
fn last_ancestors_name_the_event_for_its_creator() {
    let (parsec, _) = carol();
    for (at, event) in parsec.graph.events.iter().enumerate() {
        let slot = parsec.slot_of_event(at);
        assert_eq!(event.last_ancestors[slot], Some(event.index));
    }
    let b_4 = find_event_by_short_name(&parsec, "B_4").unwrap();
    assert_eq!(parsec.graph.events[b_4].last_ancestors, vec![Some(1), Some(4), None, Some(2)]);
    let a_2 = find_event_by_short_name(&parsec, "A_2").unwrap();
    assert_eq!(parsec.graph.events[a_2].last_ancestors, vec![Some(2), None, Some(2), Some(1)]);
}

#[test]
fn first_descendants_are_no_later_than_the_descendant() {
    let (parsec, _) = carol();
    for at in 0..parsec.graph.len() {
        let event = &parsec.graph.events[at];
        let slot = parsec.slot_of_event(at);
        for ancestor in parsec.graph.ancestors(at) {
            let noted = parsec.graph.events[ancestor].first_descendants[slot];
            assert!(noted.is_some());
            assert!(noted.unwrap() <= event.index);
        }
    }
    let a_0 = find_event_by_short_name(&parsec, "A_0").unwrap();
    assert_eq!(
        parsec.graph.events[a_0].first_descendants,
        vec![Some(0), Some(1), Some(1), Some(2)]
    );
    let d_1 = find_event_by_short_name(&parsec, "D_1").unwrap();
    assert_eq!(
        parsec.graph.events[d_1].first_descendants,
        vec![Some(2), Some(3), Some(2), Some(1)]
    );
}

#[test]
fn strong_seeing_is_inherited_by_descendants() {
    let (parsec, _) = carol();
    let n = parsec.graph.len();
    let mut seen = 0;
    for x in 0..n {
        for y in 0..n {
            if parsec.does_strongly_see(x, y) {
                seen += 1;
                for later in x..n {
                    if parsec.graph.ancestors(later).contains(&x) {
                        assert!(parsec.does_strongly_see(later, y));
                    }
                }
            }
        }
    }
    assert!(seen > 0);
    let b_4 = find_event_by_short_name(&parsec, "B_4").unwrap();
    let a_0 = find_event_by_short_name(&parsec, "A_0").unwrap();
    let d_0 = find_event_by_short_name(&parsec, "D_0").unwrap();
    // B_4 has descendants of A_0 by Alice, Bob and Dave among its ancestors.
    assert!(parsec.does_strongly_see(b_4, a_0));
    // Of D_0, only those by Bob and Dave.
    assert!(!parsec.does_strongly_see(b_4, d_0));
}

#[test]
fn ranks_lie_above_both_parents() {
    let (parsec, _) = carol();
    let ranks = parsec.graph.ranks();
    assert_eq!(ranks.len(), parsec.graph.len());
    // C_0, A_0, A_1, B_0, B_1, C_1, B_2, D_0, D_1, D_2, C_2, B_3, A_2, B_4
    assert_eq!(ranks, vec![1, 1, 2, 1, 3, 2, 4, 1, 2, 5, 3, 6, 4, 7]);
}

#[test]
fn last_ancestors_are_the_latest_ancestors() {
    let (parsec, _) = carol();
    for at in 0..parsec.graph.len() {
        let ancestors = parsec.graph.ancestors(at);
        for slot in 0..4 {
            let latest = ancestors
                .iter()
                .filter(|a| parsec.slot_of_event(**a) == slot)
                .map(|a| parsec.graph.events[*a].index)
                .max();
            assert_eq!(parsec.graph.events[at].last_ancestors[slot], latest);
        }
    }
}

#[test]
fn first_descendants_are_the_earliest_descendants() {
    let (parsec, _) = carol();
    let n = parsec.graph.len();
    for at in 0..n {
        for slot in 0..4 {
            let earliest = (at..n)
                .filter(|d| parsec.slot_of_event(*d) == slot)
                .filter(|d| parsec.graph.ancestors(*d).contains(&at))
                .map(|d| parsec.graph.events[d].index)
                .min();
            assert_eq!(parsec.graph.events[at].first_descendants[slot], earliest);
        }
    }
}

#[test]
fn strong_seeing_is_seeing_through_a_super_majority() {
    let (parsec, _) = carol();
    let n = parsec.graph.len();
    for x in 0..n {
        let ancestors = parsec.graph.ancestors(x);
        for y in 0..n {
            let mut peers_between = 0;
            for slot in 0..4 {
                let between = ancestors.iter().any(|z| {
                    parsec.slot_of_event(*z) == slot && parsec.graph.ancestors(*z).contains(&y)
                });
                if between {
                    peers_between += 1;
                }
            }
            assert_eq!(parsec.does_strongly_see(x, y), 3 * peers_between > 2 * 4);
        }
    }
}

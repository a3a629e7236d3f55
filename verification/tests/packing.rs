use solhunt::tight_pack::{
    extract_struct_bytes, propose_better_packing, struct_to_sol_representation, StructDefinition,
    StructMember,
};

fn member(type_string: &str, name: &str) -> StructMember {
    StructMember { name: name.to_string(), type_string: Some(type_string.to_string()) }
}

fn im_loose() -> StructDefinition {
    StructDefinition {
        name: "ImLoose".to_string(),
        members: vec![
            member("uint256", "full_1"),
            member("address", "part_stuff"),
            member("uint256", "another_full"),
            member("bool", "waste_of_space"),
        ],
    }
}

fn names(s: &StructDefinition) -> Vec<String> {
    s.members.iter().map(|m| m.name.clone()).collect()
}

#[test]
fn slots_of_a_loose_struct() {
    assert_eq!(extract_struct_bytes(&[32, 20, 32, 1]), vec![vec![32], vec![20], vec![32], vec![1]]);
}

#[test]
fn slots_share_when_they_fit() {
    assert_eq!(extract_struct_bytes(&[20, 1, 12]), vec![vec![20, 1], vec![12]]);
    assert_eq!(extract_struct_bytes(&[16, 16, 16, 16]), vec![vec![16, 16], vec![16, 16]]);
    assert_eq!(extract_struct_bytes(&[20, 12]), vec![vec![20, 12]]);
}

#[test]
fn slots_of_no_members() {
    assert!(extract_struct_bytes(&[]).is_empty());
}

#[test]
fn oversized_first_member_closes_an_empty_slot() {
    assert_eq!(extract_struct_bytes(&[40, 1]), vec![vec![], vec![40], vec![1]]);
}

#[test]
fn slots_flatten_back_to_the_sizes() {
    let sizes = [20, 32, 1, 1, 16, 10, 12, 32];
    let flat: Vec<usize> = extract_struct_bytes(&sizes).into_iter().flatten().collect();
    assert_eq!(flat, sizes.to_vec());
}

#[test]
fn packing_moves_members_with_their_sizes() {
    let packed = propose_better_packing(&im_loose(), vec![32, 20, 32, 1], vec![32, 32, 20, 1]);
    assert_eq!(packed.name, "ImLoose");
    assert_eq!(names(&packed), vec!["full_1", "another_full", "part_stuff", "waste_of_space"]);
}

#[test]
fn packing_an_already_tight_struct_keeps_it() {
    let packed = propose_better_packing(&im_loose(), vec![32, 20, 32, 1], vec![32, 20, 32, 1]);
    assert_eq!(names(&packed), names(&im_loose()));
}

#[test]
fn packing_over_several_passes() {
    let s = StructDefinition {
        name: "S".to_string(),
        members: vec![member("bool", "a"), member("uint256", "b"), member("address", "c")],
    };
    // index 0 sends its size 1 to the last place, then index 1 sends its 32 to the front
    let packed = propose_better_packing(&s, vec![1, 32, 20], vec![32, 20, 1]);
    assert_eq!(names(&packed), vec!["b", "c", "a"]);
}

#[test]
fn packing_when_the_passes_stall() {
    let s = StructDefinition {
        name: "S".to_string(),
        members: vec![
            member("bool", "a"),
            member("uint16", "b"),
            member("uint16", "c"),
            member("bool", "d"),
        ],
    };
    // every pass leaves [1, 2, 2, 1] as it is, so the members are put in place one by one
    let packed = propose_better_packing(&s, vec![1, 2, 2, 1], vec![1, 1, 2, 2]);
    assert_eq!(packed.name, "S");
    assert_eq!(names(&packed), vec!["d", "a", "b", "c"]);
}

#[test]
fn solidity_representation() {
    let packed = propose_better_packing(&im_loose(), vec![32, 20, 32, 1], vec![32, 32, 20, 1]);
    assert_eq!(
        struct_to_sol_representation(&packed),
        "```solidity\nstruct ImLoose {\n   uint256 full_1;\n   uint256 another_full;\n   address part_stuff;\n   bool waste_of_space;\n}\n```"
    );
}

#[test]
fn solidity_representation_of_an_empty_struct() {
    let s = StructDefinition { name: "E".to_string(), members: vec![] };
    assert_eq!(struct_to_sol_representation(&s), "```solidity\nstruct E {\n}\n```");
}

#[test]
fn loose_struct() {
    // uint full_1; address part_stuff; uint256 another_full; bool waste_of_space;
    let loose = [32, 20, 32, 1];
    let tight = [32, 32, 20, 1];
    assert_eq!(extract_struct_bytes(&loose).len(), 4);
    assert_eq!(extract_struct_bytes(&tight).len(), 3);
    let packed = propose_better_packing(&im_loose(), loose.to_vec(), tight.to_vec());
    assert_eq!(names(&packed), vec!["full_1", "another_full", "part_stuff", "waste_of_space"]);
}

#[test]
fn tight_struct() {
    // two addresses among 32-byte numbers: no order puts them in one slot
    let sizes = [20, 32, 32, 32, 32, 20, 32, 32];
    let slots = extract_struct_bytes(&sizes);
    assert_eq!(slots, vec![vec![20], vec![32], vec![32], vec![32], vec![32], vec![20], vec![32], vec![32]]);
    assert_eq!(extract_struct_bytes(&[32, 32, 32, 32, 32, 32, 20, 20]).len(), slots.len());
    assert_eq!(extract_struct_bytes(&[20, 20, 32, 32, 32, 32, 32, 32]).len(), slots.len());
}

#[test]
fn can_pack() {
    let s = StructDefinition {
        name: "StoredBlockInfo".to_string(),
        members: vec![
            member("uint64", "blockNumber"),
            member("bytes32", "blockHash"),
            member("uint64", "indexRepeatedStorageChanges"),
            member("uint256", "numberOfLayer1Txs"),
            member("bytes32", "priorityOperationsHash"),
            member("bytes32", "l2LogsTreeRoot"),
            member("uint256", "timestamp"),
            member("bytes32", "commitment"),
        ],
    };
    let loose = vec![8, 32, 8, 32, 32, 32, 32, 32];
    let tight = vec![8, 8, 32, 32, 32, 32, 32, 32];
    assert_eq!(extract_struct_bytes(&loose).len(), 8);
    assert_eq!(extract_struct_bytes(&tight).len(), 7);
    let packed = propose_better_packing(&s, loose, tight);
    assert_eq!(
        names(&packed),
        vec![
            "blockNumber",
            "indexRepeatedStorageChanges",
            "blockHash",
            "numberOfLayer1Txs",
            "priorityOperationsHash",
            "l2LogsTreeRoot",
            "timestamp",
            "commitment"
        ]
    );
}

#[test]
fn jpeg_sale() {
    // the member sizes of PositionPreview, its settings laid out as pairs of
    // 16-byte rates
    let mut sizes = vec![20, 32, 32, 32];
    sizes.extend([16; 18]);
    sizes.extend([32, 32, 32, 32, 32, 1, 1, 32, 20]);
    let mut expected = vec![vec![20], vec![32], vec![32], vec![32]];
    expected.extend(std::iter::repeat(vec![16, 16]).take(9));
    expected.extend([vec![32], vec![32], vec![32], vec![32], vec![32], vec![1, 1], vec![32], vec![20]]);
    assert_eq!(extract_struct_bytes(&sizes), expected);
}

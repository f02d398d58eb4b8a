use fckloud::ip::IpLiteral;
use fckloud::kubem::manager::{
    is_external_ip, is_internal_external_ip, is_internal_ip, new_node_address, node_address, node_addresses,
    parse_ip, TYPE_EXTERNAL_IP, TYPE_INTERNAL_IP,
};
use fckloud::kubem::{AddrStatus, ApplyError, Manager, NodeAddress, Plan, RawAddress, State};

const A: IpLiteral = IpLiteral::V4(0x0808_0808);
const B: IpLiteral = IpLiteral::V4(0x0808_0404);
const C: IpLiteral = IpLiteral::V4(0x0101_0101);

fn other(type_: &str, address: &str) -> NodeAddress {
    NodeAddress::Other { type_: String::from(type_), address: String::from(address) }
}

fn hostname() -> NodeAddress {
    other("Hostname", "node-1")
}

fn internal() -> NodeAddress {
    other("InternalIP", "10.0.0.7")
}

fn external(ip: IpLiteral) -> NodeAddress {
    NodeAddress::External(ip)
}

fn node_with_a_and_b() -> Vec<NodeAddress> {
    vec![hostname(), external(A), internal(), external(B)]
}

fn manager_on(live: Vec<NodeAddress>) -> Manager {
    Manager::new(String::from("node-1"), live)
}

fn statuses(plan: &Plan) -> Vec<(IpLiteral, AddrStatus)> {
    plan.report.as_slice().to_vec()
}

#[test]
fn stage_two_on_a_node_with_two_keeps_all() {
    let mut manager = manager_on(node_with_a_and_b());
    manager.stage_address(&B).stage_address(&C);
    let plan = manager.apply(node_with_a_and_b()).unwrap();
    assert_eq!(plan.report.get(&A), Some(&AddrStatus::Skipped));
    assert_eq!(plan.report.get(&B), Some(&AddrStatus::Skipped));
    assert_eq!(plan.report.get(&C), Some(&AddrStatus::New));
    assert_eq!(plan.report.len(), 3);
    assert_eq!(
        plan.addresses,
        vec![hostname(), external(A), internal(), external(B), external(C)]
    );
    assert!(plan.patch);
    assert!(!plan.dry_run);
}

#[test]
fn stage_two_on_a_node_with_two_purges_the_third() {
    let mut manager = manager_on(node_with_a_and_b());
    manager.set_remove_unstaged(true);
    manager.stage_address(&B).stage_address(&C);
    let plan = manager.apply(node_with_a_and_b()).unwrap();
    assert_eq!(plan.report.get(&A), Some(&AddrStatus::Removed));
    assert_eq!(plan.report.get(&B), Some(&AddrStatus::Skipped));
    assert_eq!(plan.report.get(&C), Some(&AddrStatus::New));
    assert_eq!(plan.report.len(), 3);
    assert_eq!(plan.addresses, vec![hostname(), internal(), external(B), external(C)]);
    assert!(plan.patch);
}

#[test]
fn apply_twice_patches_once() {
    for purge in [false, true] {
        let mut manager = manager_on(node_with_a_and_b());
        manager.set_remove_unstaged(purge);
        manager.stage_address(&B).stage_address(&C);
        let first = manager.apply(node_with_a_and_b()).unwrap();
        assert!(first.patch);
        // The node now has the list that was decided, and the same
        // addresses are staged again.
        manager.refresh(first.addresses.clone());
        manager.stage_address(&C).stage_address(&B);
        let second = manager.apply(first.addresses.clone()).unwrap();
        assert!(!second.patch);
        assert_eq!(second.addresses, first.addresses);
        assert_eq!(second.report.get(&B), Some(&AddrStatus::Skipped));
        assert_eq!(second.report.get(&C), Some(&AddrStatus::Skipped));
    }
}

#[test]
fn apply_with_unchanged_node_needs_no_patch() {
    let mut manager = manager_on(node_with_a_and_b());
    manager.stage_address(&A).stage_address(&B);
    let plan = manager.apply(node_with_a_and_b()).unwrap();
    assert!(!plan.patch);
    assert_eq!(plan.addresses, node_with_a_and_b());
    assert_eq!(statuses(&plan), vec![(B, AddrStatus::Skipped), (A, AddrStatus::Skipped)]);
}

#[test]
fn apply_with_nothing_staged_fails() {
    let mut manager = manager_on(node_with_a_and_b());
    assert_eq!(manager.check_staged(), Err(ApplyError::NothingStaged));
    let result = manager.apply(node_with_a_and_b());
    assert_eq!(result.err(), Some(ApplyError::NothingStaged));
    assert_eq!(manager.current_state(), State::Fresh);
    assert_eq!(manager.foreign_addresses(), vec![B, A]);
    assert_eq!(
        ApplyError::NothingStaged.message(),
        "no addresses are staged and remove unapplied is not requested"
    );
    // Nothing was lost: a later pass still finds both addresses known.
    manager.stage_address(&A);
    assert_eq!(manager.check_staged(), Ok(()));
    let plan = manager.apply(node_with_a_and_b()).unwrap();
    assert_eq!(statuses(&plan), vec![(B, AddrStatus::Skipped), (A, AddrStatus::Skipped)]);
    let mut purging = manager_on(node_with_a_and_b());
    purging.set_remove_unstaged(true);
    assert_eq!(purging.check_staged(), Ok(()));
}

#[test]
fn apply_with_nothing_staged_purges_when_asked() {
    let mut manager = manager_on(node_with_a_and_b());
    manager.set_remove_unstaged(true);
    let plan = manager.apply(node_with_a_and_b()).unwrap();
    assert_eq!(statuses(&plan), vec![(B, AddrStatus::Removed), (A, AddrStatus::Removed)]);
    assert_eq!(plan.addresses, vec![hostname(), internal()]);
    assert!(plan.patch);
    assert!(manager.applied_addresses().is_empty());
    assert!(manager.foreign_addresses().is_empty());
}

#[test]
fn address_that_appeared_behind_the_engine_is_new_once() {
    let mut manager = manager_on(vec![hostname()]);
    manager.stage_address(&A);
    // Somebody else put A on the node since the engine last looked.
    let plan = manager.apply(vec![hostname(), external(A)]).unwrap();
    assert_eq!(statuses(&plan), vec![(A, AddrStatus::New)]);
    assert!(!plan.patch);
    manager.refresh(plan.addresses.clone());
    manager.stage_address(&A);
    let plan = manager.apply(vec![hostname(), external(A)]).unwrap();
    assert_eq!(statuses(&plan), vec![(A, AddrStatus::Skipped)]);
    assert!(!plan.patch);
}

#[test]
fn new_addresses_are_appended_in_ascending_order() {
    let v6 = IpLiteral::V6(0x2606_4700_4700_0000_0000_0000_0000_1111);
    let mut manager = manager_on(vec![internal()]);
    manager.stage_address(&v6).stage_address(&A).stage_address(&C).stage_address(&B);
    manager.stage_address(&A);
    assert_eq!(manager.staged_addresses(), vec![C, B, A, v6]);
    let plan = manager.apply(vec![internal()]).unwrap();
    assert_eq!(
        plan.addresses,
        vec![internal(), external(C), external(B), external(A), external(v6)]
    );
    assert_eq!(
        statuses(&plan),
        vec![
            (C, AddrStatus::New),
            (B, AddrStatus::New),
            (A, AddrStatus::New),
            (v6, AddrStatus::New)
        ]
    );
    assert_eq!(manager.applied_addresses(), vec![C, B, A, v6]);
    assert!(manager.staged_addresses().is_empty());
}

#[test]
fn duplicates_on_the_node_are_treated_alike() {
    let live = vec![external(A), hostname(), external(A), external(B)];
    let mut manager = manager_on(live.clone());
    manager.set_remove_unstaged(true).stage_address(&A);
    let plan = manager.apply(live.clone()).unwrap();
    assert_eq!(plan.addresses, vec![external(A), hostname(), external(A)]);
    assert_eq!(statuses(&plan), vec![(B, AddrStatus::Removed), (A, AddrStatus::Skipped)]);
    assert!(plan.patch);
    let mut manager = manager_on(live.clone());
    manager.set_remove_unstaged(true).stage_address(&A).stage_address(&B);
    let plan = manager.apply(live.clone()).unwrap();
    assert_eq!(plan.addresses, live);
    assert!(!plan.patch);
}

#[test]
fn dry_run_works_from_the_cache() {
    let mut manager = manager_on(node_with_a_and_b());
    manager.set_dry_run(true).set_remove_unstaged(true);
    assert!(manager.is_dry_run());
    assert!(manager.removes_unstaged());
    manager.stage_address(&B).stage_address(&C);
    // The list handed in is not looked at: the node is taken to be as it
    // was when it was last read.
    let plan = manager.apply(vec![external(C)]).unwrap();
    assert!(plan.dry_run);
    assert!(plan.patch);
    assert_eq!(plan.addresses, vec![hostname(), internal(), external(B), external(C)]);
    assert_eq!(
        statuses(&plan),
        vec![(C, AddrStatus::New), (B, AddrStatus::Skipped), (A, AddrStatus::Removed)]
    );
    assert_eq!(
        manager.cached_list(),
        vec![hostname(), internal(), external(C), external(B)]
    );
    // Nothing was persisted: reading the node again forgets what was
    // only computed.
    manager.refresh(node_with_a_and_b());
    assert!(manager.applied_addresses() == vec![B]);
    assert_eq!(manager.foreign_addresses(), vec![A]);
    assert_eq!(manager.cached_list(), vec![hostname(), internal(), external(B), external(A)]);
}

#[test]
fn refresh_forgets_what_left_the_node() {
    let mut manager = manager_on(vec![hostname()]);
    manager.stage_address(&A).stage_address(&B);
    let plan = manager.apply(vec![hostname()]).unwrap();
    assert_eq!(manager.current_state(), State::Applied);
    assert_eq!(manager.applied_addresses(), vec![B, A]);
    manager.refresh(plan.addresses);
    assert_eq!(manager.current_state(), State::Fresh);
    assert_eq!(manager.applied_addresses(), vec![B, A]);
    // B was taken off the node by someone else, and C was put on it.
    manager.stage_address(&A);
    manager.refresh(vec![hostname(), external(A), external(C)]);
    assert_eq!(manager.current_state(), State::Fresh);
    assert!(manager.staged_addresses().is_empty());
    assert_eq!(manager.applied_addresses(), vec![A]);
    assert_eq!(manager.foreign_addresses(), vec![C]);
    // B can be added again.
    manager.stage_address(&B);
    let plan = manager.apply(vec![hostname(), external(A), external(C)]).unwrap();
    assert_eq!(
        statuses(&plan),
        vec![(C, AddrStatus::Skipped), (B, AddrStatus::New), (A, AddrStatus::Skipped)]
    );
    assert_eq!(plan.addresses, vec![hostname(), external(A), external(C), external(B)]);
    assert_eq!(manager.applied_addresses(), vec![B, A]);
    assert_eq!(manager.foreign_addresses(), vec![C]);
}

#[test]
fn purge_unstaged_strips_every_external_address() {
    let mut manager = manager_on(node_with_a_and_b());
    manager.stage_address(&C);
    let (plan, removed) = manager.purge_unstaged(node_with_a_and_b());
    assert_eq!(removed, vec![B, A]);
    assert_eq!(plan.addresses, vec![hostname(), internal()]);
    assert!(plan.patch);
    assert_eq!(statuses(&plan), vec![(B, AddrStatus::Removed), (A, AddrStatus::Removed)]);
    assert!(!manager.removes_unstaged());
    assert!(manager.staged_addresses().is_empty());
    assert_eq!(manager.current_state(), State::Applied);
    let (plan, removed) = manager.purge_unstaged(vec![hostname(), internal()]);
    assert!(removed.is_empty());
    assert!(!plan.patch);
}

#[test]
fn engine_walks_through_its_states() {
    let mut manager = manager_on(Vec::new());
    assert_eq!(manager.name(), "node-1");
    assert_eq!(manager.current_state(), State::Fresh);
    assert!(manager.current_state().is_fresh());
    manager.stage_address(&A);
    assert_eq!(manager.current_state(), State::Staged);
    assert!(manager.current_state().is_staged());
    manager.stage_address(&A);
    assert_eq!(manager.staged_addresses(), vec![A]);
    let plan = manager.apply(Vec::new()).unwrap();
    assert_eq!(manager.current_state(), State::Applied);
    assert!(manager.current_state().is_applied());
    assert_eq!(manager.apply(Vec::new()).err(), Some(ApplyError::NothingStaged));
    assert_eq!(manager.current_state(), State::Applied);
    manager.stage_address(&B);
    assert_eq!(manager.current_state(), State::Staged);
    manager.refresh(plan.addresses);
    assert_eq!(manager.current_state(), State::Fresh);
}

fn raw(type_: &str, address: &str, ip: Option<IpLiteral>) -> RawAddress {
    RawAddress { type_: String::from(type_), address: String::from(address), ip }
}

#[test]
fn current_addresses_are_the_external_ones() {
    let manager = manager_on(Vec::new());
    let live = vec![
        raw("ExternalIP", "8.8.4.4", Some(B)),
        raw("Hostname", "node-1", None),
        raw("ExternalIP", "8.8.8.8", Some(A)),
        raw("InternalIP", "1.1.1.1", Some(C)),
        raw("ExternalIP", "somewhere", None),
        raw("ExternalIP", "8.8.4.4", Some(B)),
    ];
    assert_eq!(manager.query_current_addresses(&live), vec![B, A, B]);
    let inside = vec![raw("Hostname", "node-1", None), raw("InternalIP", "1.1.1.1", Some(C))];
    assert!(manager.query_current_addresses(&inside).is_empty());
    assert!(external(A).is_external());
    assert!(!hostname().is_external());
    assert_eq!(internal().duplicate(), internal());
    assert_eq!(external(C).duplicate(), external(C));
}

#[test]
fn entries_are_told_apart_by_their_type() {
    let outside = raw("ExternalIP", "8.8.8.8", Some(A));
    let inside = raw("InternalIP", "1.1.1.1", Some(C));
    let named = raw("Hostname", "8.8.4.4", Some(B));
    let odd = raw("externalip", "8.8.8.8", Some(A));
    assert!(is_external_ip(&outside));
    assert!(!is_internal_ip(&outside));
    assert!(is_internal_external_ip(&outside));
    assert!(is_internal_ip(&inside));
    assert!(!is_external_ip(&inside));
    assert!(is_internal_external_ip(&inside));
    assert!(!is_internal_external_ip(&named));
    assert!(!is_internal_external_ip(&odd));
    assert_eq!(parse_ip(&outside), Some(A));
    assert_eq!(parse_ip(&inside), Some(C));
    assert_eq!(parse_ip(&named), None);
    assert_eq!(parse_ip(&raw("InternalIP", "inside", None)), None);
    assert_eq!(TYPE_EXTERNAL_IP, "ExternalIP");
    assert_eq!(TYPE_INTERNAL_IP, "InternalIP");
    assert_eq!(
        new_node_address(&A, String::from("8.8.8.8"), TYPE_EXTERNAL_IP),
        raw("ExternalIP", "8.8.8.8", Some(A))
    );
}

#[test]
fn entries_are_held_by_number_or_as_they_are() {
    assert_eq!(node_address(raw("ExternalIP", "8.8.8.8", Some(A))), external(A));
    assert_eq!(node_address(raw("InternalIP", "10.0.0.7", Some(C))), internal());
    assert_eq!(node_address(raw("Hostname", "node-1", None)), hostname());
    assert_eq!(
        node_addresses(vec![
            raw("Hostname", "node-1", None),
            raw("ExternalIP", "8.8.8.8", Some(A)),
            raw("InternalIP", "10.0.0.7", None),
            raw("ExternalIP", "8.8.4.4", Some(B)),
        ]),
        node_with_a_and_b()
    );
    assert!(node_addresses(Vec::new()).is_empty());
}

#[test]
fn statuses_tell_themselves_apart() {
    assert!(AddrStatus::New.is_new());
    assert!(AddrStatus::Skipped.is_skipped());
    assert!(AddrStatus::Removed.is_removed());
    assert!(!AddrStatus::New.is_skipped());
    assert!(!AddrStatus::Skipped.is_removed());
    assert!(!AddrStatus::Removed.is_new());
}

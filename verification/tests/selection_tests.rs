use m3u_filter::selection::{narrow_process_targets, unique_groups, ProcessTargets};

fn strings(v: &[&str]) -> Vec<String> {
    v.iter().map(|s| s.to_string()).collect()
}

#[test]
fn groups_once_in_first_order() {
    let groups = strings(&["News", "Sports", "News", "Kids", "Sports", "news"]);
    assert_eq!(unique_groups(&groups), strings(&["News", "Sports", "Kids", "news"]));
    assert_eq!(unique_groups(&Vec::new()), Vec::<String>::new());
}

#[test]
fn process_targets_narrowing() {
    let configured = ProcessTargets { enabled: true, inputs: vec![1, 2, 3], targets: vec![10] };
    let requested = ProcessTargets { enabled: true, inputs: vec![3, 4, 1], targets: vec![2, 10] };
    let r = narrow_process_targets(Some(&requested), &configured);
    assert!(r.enabled);
    assert_eq!(r.inputs, vec![3, 1]);
    assert_eq!(r.targets, vec![2]);
    let disabled = ProcessTargets { enabled: false, inputs: vec![], targets: vec![] };
    let r = narrow_process_targets(Some(&requested), &disabled);
    assert_eq!((r.enabled, r.inputs, r.targets), (true, vec![3, 4, 1], vec![2, 10]));
    let r = narrow_process_targets(None, &configured);
    assert_eq!((r.enabled, r.inputs, r.targets), (true, vec![1, 2, 3], vec![10]));
    let off = ProcessTargets { enabled: false, inputs: vec![9], targets: vec![9] };
    let r = narrow_process_targets(Some(&off), &configured);
    assert_eq!((r.enabled, r.inputs, r.targets), (true, vec![1, 2, 3], vec![10]));
}

use cluster_agent::FollowFromType;

#[test]
fn test_library_exports() {
    let _follow_from = FollowFromType::Default;
}

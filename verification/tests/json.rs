use data_save_manager::json::{put_member, Json, Member};

fn keys(members: &[Member]) -> Vec<&str> {
    members.iter().map(|member| member.key.as_str()).collect()
}

#[test]
fn members_are_put_in_order_and_replace_their_own_key() {
    let mut members = Vec::new();
    for key in ["b", "", "я", "a", "ab", "B", "🚀"] {
        put_member(&mut members, key.to_string(), Json::Null);
    }
    assert_eq!(keys(&members), vec!["", "B", "a", "ab", "b", "я", "🚀"]);
    put_member(&mut members, "ab".to_string(), Json::Bool(true));
    assert_eq!(keys(&members), vec!["", "B", "a", "ab", "b", "я", "🚀"]);
    assert_eq!(members[3].value, Json::Bool(true));
}

#[test]
fn key_order_is_that_of_the_bytes() {
    let names = ["a", "aa", "Z", "é", "\u{ffff}", "\u{10000}", "z", "\0"];
    let mut members = Vec::new();
    for name in names {
        put_member(&mut members, name.to_string(), Json::Null);
    }
    let mut sorted = names.to_vec();
    sorted.sort();
    assert_eq!(keys(&members), sorted);
}

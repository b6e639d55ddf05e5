use rosrust::api::resolve::{find_with_prefix, hostname, mapping, mappings, master, name, namespace};
use rosrust::build_tools::{append_share_folder, search_paths};
use rosrust::text::{absent, copy, decimal, find_char, holds, join, same_text, split, unique};

fn strings(list: &[&str]) -> Vec<String> {
    list.iter().map(|s| s.to_string()).collect()
}

#[test]
fn arguments_are_found_by_their_prefix() {
    let args = strings(&["__name:=program", "a:=b", "__name:=first", "__name:=second", "__ns:=/x"]);
    assert_eq!(find_with_prefix(&args, "__name:="), Some("first".to_string()));
    assert_eq!(find_with_prefix(&args, "__ns:="), Some("/x".to_string()));
    assert_eq!(find_with_prefix(&args, "__master:="), None);
    assert_eq!(find_with_prefix(&strings(&["__name:=program"]), "__name:="), None);
    assert_eq!(find_with_prefix(&Vec::new(), "__name:="), None);
    assert_eq!(
        find_with_prefix(&strings(&["p", "__name:=__name:=twice"]), "__name:="),
        Some("twice".to_string())
    );
    assert_eq!(find_with_prefix(&strings(&["p", "__name:="]), "__name:="), Some(String::new()));
    assert_eq!(find_with_prefix(&strings(&["p", "anything"]), ""), Some("anything".to_string()));
}

#[test]
fn remappings_hold_one_assignment() {
    assert_eq!(mapping("a:=b"), Some(("a".to_string(), "b".to_string())));
    assert_eq!(mapping("/foo:=/bar"), Some(("/foo".to_string(), "/bar".to_string())));
    assert_eq!(mapping(":="), Some((String::new(), String::new())));
    assert_eq!(mapping("a:=b:c=d"), Some(("a".to_string(), "b:c=d".to_string())));
    assert_eq!(mapping("a:=b:=c"), None);
    assert_eq!(mapping("a=b"), None);
    assert_eq!(mapping("a:b"), None);
    assert_eq!(mapping(""), None);
    assert_eq!(mapping(":"), None);
    assert_eq!(mapping("__name:=x"), None);
    assert_eq!(mapping("_private:=x"), None);
    let args = strings(&["x:=y", "a:=b", "__ns:=/n", "plain", "c:=d", "e:=f:=g"]);
    assert_eq!(
        mappings(&args),
        vec![("a".to_string(), "b".to_string()), ("c".to_string(), "d".to_string())]
    );
    assert_eq!(mappings(&Vec::new()), vec![]);
    assert_eq!(mappings(&strings(&["a:=b"])), vec![]);
}

#[test]
fn arguments_come_before_the_environment() {
    let args = strings(&["p", "__name:=n", "__ns:=/s", "__master:=http://m:1/", "__ip:=1.2.3.4"]);
    let none = strings(&["p"]);
    assert_eq!(name(&args, "default"), "n");
    assert_eq!(name(&none, "default"), "default");
    assert_eq!(namespace(&args, Some("/env".to_string())), "/s");
    assert_eq!(namespace(&none, Some("/env".to_string())), "/env");
    assert_eq!(namespace(&none, None), "");
    assert_eq!(master(&args, Some("http://env:2/".to_string())), "http://m:1/");
    assert_eq!(master(&none, Some("http://env:2/".to_string())), "http://env:2/");
    assert_eq!(master(&none, None), "http://localhost:11311/");
    assert_eq!(hostname(&args, Some("envhost".to_string()), Some("5.6.7.8".to_string()), "sys"), "1.2.3.4");
    let both = strings(&["p", "__ip:=1.2.3.4", "__hostname:=h"]);
    assert_eq!(hostname(&both, None, None, "sys"), "h");
    assert_eq!(hostname(&none, Some("envhost".to_string()), Some("5.6.7.8".to_string()), "sys"), "envhost");
    assert_eq!(hostname(&none, None, Some("5.6.7.8".to_string()), "sys"), "5.6.7.8");
    assert_eq!(hostname(&none, None, None, "sys"), "sys");
}

#[test]
fn share_folders_stand_below_their_prefix() {
    assert_eq!(append_share_folder("/opt/ros"), Some("/opt/ros/share".to_string()));
    assert_eq!(append_share_folder("/opt/ros/"), Some("/opt/ros/share".to_string()));
    assert_eq!(append_share_folder(""), Some("share".to_string()));
    assert_eq!(append_share_folder("/"), Some("/share".to_string()));
    assert_eq!(append_share_folder("rel"), Some("rel/share".to_string()));
}

#[test]
fn search_paths_are_share_folders_then_extra_folders() {
    assert_eq!(
        search_paths("/opt/ros/kinetic:/home/me/ws/devel", "/extra/msgs:/more"),
        strings(&["/opt/ros/kinetic/share", "/home/me/ws/devel/share", "/extra/msgs", "/more"])
    );
    assert_eq!(search_paths("", ""), strings(&["share", ""]));
    assert_eq!(search_paths("/a/", ""), strings(&["/a/share", ""]));
    assert_eq!(search_paths("/a::/b", "x:"), strings(&["/a/share", "share", "/b/share", "x", ""]));
}

#[test]
fn texts_are_cut_at_every_separator() {
    assert_eq!(split("a:b:c", ':'), strings(&["a", "b", "c"]));
    assert_eq!(split("", ':'), strings(&[""]));
    assert_eq!(split(":", ':'), strings(&["", ""]));
    assert_eq!(split("abc", ':'), strings(&["abc"]));
    assert_eq!(split("::a:", ':'), strings(&["", "", "a", ""]));
    assert_eq!(split("\u{e9}/\u{1F600}/x", '/'), strings(&["\u{e9}", "\u{1F600}", "x"]));
}

#[test]
fn numbers_are_written_in_decimal() {
    assert_eq!(decimal(0), "0");
    assert_eq!(decimal(7), "7");
    assert_eq!(decimal(10), "10");
    assert_eq!(decimal(11311), "11311");
    assert_eq!(decimal(65535), "65535");
    assert_eq!(decimal(1234567890), "1234567890");
    assert_eq!(decimal(u64::MAX), "18446744073709551615");
}

#[test]
fn lists_of_texts_are_searched_and_filtered() {
    let list = strings(&["a", "b", "a", "c", "b"]);
    assert!(holds(&list, "c"));
    assert!(!holds(&list, "d"));
    assert!(!holds(&Vec::new(), ""));
    assert_eq!(unique(&list), strings(&["a", "b", "c"]));
    assert_eq!(absent(&list, &strings(&["b", "x"])), strings(&["a", "a", "c"]));
    assert_eq!(absent(&list, &Vec::new()), list);
    assert_eq!(absent(&Vec::new(), &list), Vec::<String>::new());
    assert_eq!(copy(&list), list);
    assert_eq!(join(&list), "a\nb\na\nc\nb");
    assert_eq!(join(&strings(&["only"])), "only");
    assert_eq!(join(&strings(&["", ""])), "\n");
    assert_eq!(join(&Vec::new()), "");
    assert_eq!(find_char("a/b/c", '/'), Some(1));
    assert_eq!(find_char("\u{e9}\u{e9}/", '/'), Some(2));
    assert_eq!(find_char("abc", '/'), None);
    assert_eq!(find_char("", '/'), None);
    assert!(same_text("abc", "abc"));
    assert!(!same_text("abc", "abd"));
    assert!(!same_text("abc", "ab"));
}

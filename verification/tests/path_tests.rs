use o2a::path::{path_seqment_to_folder, path_to_folders, relative_config_path};

#[test]
fn given_literal_seqment_when_converting_to_folder_then_unchanged() {
    assert_eq!(path_seqment_to_folder("users"), "users");
}

#[test]
fn given_param_seqment_when_converting_to_folder_then_prefixed() {
    assert_eq!(path_seqment_to_folder("{id}"), "_id");
}

#[test]
fn given_full_path_when_converting_to_folder_then_all_segments_converted() {
    assert_eq!(
        path_to_folders("/users/{id}/orders/{orderId}"),
        "users/_id/orders/_orderId"
    );
}

#[test]
fn folder_of_unbalanced_braces_is_unchanged() {
    assert_eq!(path_seqment_to_folder("{"), "{");
    assert_eq!(path_seqment_to_folder("{id"), "{id");
    assert_eq!(path_seqment_to_folder("id}"), "id}");
    assert_eq!(path_seqment_to_folder("{}"), "_");
    assert_eq!(path_seqment_to_folder(""), "");
}

#[test]
fn folders_drop_every_leading_slash_and_keep_empty_segments() {
    assert_eq!(path_to_folders("///a//{b}/"), "a//_b/");
    assert_eq!(path_to_folders("/"), "");
    assert_eq!(path_to_folders(""), "");
    assert_eq!(path_to_folders("plain"), "plain");
}

#[test]
fn folder_segments_mirror_path_segments() {
    let folder = path_to_folders("/v1/users/{user-id}/x");
    let segments: Vec<&str> = folder.split('/').collect();
    assert_eq!(segments, vec!["v1", "users", "_user-id", "x"]);
}

#[test]
fn config_path_climbs_one_level_per_directory() {
    assert_eq!(relative_config_path("v1/users"), "../../.config.sh");
    assert_eq!(relative_config_path("v1/users/_user-id"), "../../../.config.sh");
    assert_eq!(relative_config_path(""), ".config.sh");
    assert_eq!(relative_config_path("a//b"), "../../.config.sh");
}

#[test]
fn folder_of_a_folder_is_itself() {
    for path in ["/users/{id}/orders/{orderId}", "//a/{b}//", "/", "", "{x}/y", "/{}"] {
        let once = path_to_folders(path);
        assert_eq!(path_to_folders(&once), once, "{path}");
    }
}

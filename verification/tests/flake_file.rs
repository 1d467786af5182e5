use flake_auto_follows::metadata::{Locks, Metadata, NodeMap, NodeName};
use flake_auto_follows::nix::{
    resolve_flake_filepath, FlakeFilepath, FlakeRef, JsonMetadata, OutputError, ResolveError,
    ResolvedUrl,
};

fn pair(key: &str, value: &str) -> (String, String) {
    (key.to_string(), value.to_string())
}

fn metadata(scheme: &str, path: &str, query_pairs: Vec<(String, String)>) -> Metadata {
    Metadata {
        locks: Locks { nodes: NodeMap::new(), root: NodeName("root".to_string()) },
        resolved_url: ResolvedUrl {
            scheme: scheme.to_string(),
            path: path.to_string(),
            query_pairs,
        },
    }
}

fn filepath(root: &str, dir: &str) -> FlakeFilepath {
    FlakeFilepath { root: root.to_string(), dir: dir.to_string() }
}

#[test]
fn url_is_read_into_its_parts() {
    let url = ResolvedUrl::parse("git+file:///home/me/flake?dir=sub%2Fdir&ref=main").unwrap();
    assert_eq!(url.scheme, "git+file");
    assert_eq!(url.path, "/home/me/flake");
    assert_eq!(url.query_pairs, vec![pair("dir", "sub/dir"), pair("ref", "main")]);
}

#[test]
fn url_scheme_is_read_in_lower_case() {
    let url = ResolvedUrl::parse("FILE:///tmp/flake").unwrap();
    assert_eq!(url.scheme, "file");
    assert_eq!(url.path, "/tmp/flake");
    assert!(url.query_pairs.is_empty());
}

#[test]
fn url_of_another_kind_is_read_too() {
    let url = ResolvedUrl::parse("github:NixOS/nixpkgs/nixos-unstable").unwrap();
    assert_eq!(url.scheme, "github");
    assert_eq!(url.path, "NixOS/nixpkgs/nixos-unstable");
}

#[test]
fn text_that_is_no_url_is_refused() {
    let error = ResolvedUrl::parse("./test_data").unwrap_err();
    assert!(matches!(error, ResolveError::InvalidUrl(_)));
    assert_eq!(
        error.message(),
        "the resolved URL cannot be read: relative URL without a base"
    );
    assert!(matches!(ResolvedUrl::parse(""), Err(ResolveError::InvalidUrl(_))));
}

#[test]
fn same_text_is_read_alike() {
    let text = "file:///tmp/flake?dir=a&dir=b";
    assert_eq!(ResolvedUrl::parse(text), ResolvedUrl::parse(text));
}

#[test]
fn file_of_a_local_flake_is_found() {
    let found = resolve_flake_filepath(&metadata("file", "/tmp/flake", vec![])).unwrap();
    assert_eq!(found, filepath("/tmp/flake", ""));
    assert_eq!(found.components(), vec!["/tmp/flake", "", "flake.nix"]);
}

#[test]
fn file_of_a_local_git_flake_is_found() {
    let found = resolve_flake_filepath(&metadata("git+file", "/home/me/flake", vec![])).unwrap();
    assert_eq!(found, filepath("/home/me/flake", ""));
}

#[test]
fn dir_of_the_query_leads_to_the_file() {
    let query = vec![pair("ref", "main"), pair("dir", "sub"), pair("dir", "other")];
    let found = resolve_flake_filepath(&metadata("git+file", "/repo", query)).unwrap();
    assert_eq!(found, filepath("/repo", "sub"));
    assert_eq!(found.components(), vec!["/repo", "sub", "flake.nix"]);
}

#[test]
fn key_of_the_query_is_compared_letter_for_letter() {
    let query = vec![pair("Dir", "a"), pair("dir2", "b"), pair("di", "c")];
    let found = resolve_flake_filepath(&metadata("file", "/repo", query)).unwrap();
    assert_eq!(found, filepath("/repo", ""));
}

#[test]
fn other_schemes_have_no_local_file() {
    for scheme in ["github", "https", "git+https", "git", "path", "File", ""] {
        let error = resolve_flake_filepath(&metadata(scheme, "/repo", vec![pair("dir", "sub")]))
            .unwrap_err();
        assert_eq!(error, ResolveError::UnsupportedScheme(scheme.to_string()));
    }
    let error = resolve_flake_filepath(&metadata("github", "/repo", vec![])).unwrap_err();
    assert_eq!(
        error.message(),
        "no local `flake.nix` file can be resolved with given URL scheme 'github'"
    );
}

#[test]
fn resolved_url_leads_to_the_file() {
    let mut graph = metadata("", "", vec![]);
    graph.resolved_url =
        ResolvedUrl::parse("git+file:///home/me/work?dir=nix%20files&rev=abc").unwrap();
    let found = resolve_flake_filepath(&graph).unwrap();
    assert_eq!(found, filepath("/home/me/work", "nix files"));

    graph.resolved_url = ResolvedUrl::parse("github:NixOS/nixpkgs").unwrap();
    assert_eq!(
        resolve_flake_filepath(&graph),
        Err(ResolveError::UnsupportedScheme("github".to_string()))
    );
}

#[test]
fn output_of_a_tool_that_ended_well_is_text() {
    let output = "{\"locks\": {}}".as_bytes().to_vec();
    assert_eq!(
        JsonMetadata::from_output(true, output),
        Ok(JsonMetadata("{\"locks\": {}}".to_string()))
    );
    let output = "日本 é".as_bytes().to_vec();
    assert_eq!(JsonMetadata::from_output(true, output), Ok(JsonMetadata("日本 é".to_string())));
    assert_eq!(JsonMetadata::from_output(true, vec![]), Ok(JsonMetadata(String::new())));
}

#[test]
fn output_of_a_tool_that_failed_is_of_no_use() {
    let output = "{}".as_bytes().to_vec();
    assert_eq!(JsonMetadata::from_output(false, output), Err(OutputError::Failed));
    assert_eq!(JsonMetadata::from_output(false, vec![0xff]), Err(OutputError::Failed));
}

#[test]
fn output_that_is_not_utf8_is_of_no_use() {
    assert_eq!(JsonMetadata::from_output(true, vec![0x7b, 0xff, 0x7d]), Err(OutputError::NotUtf8));
    assert_eq!(JsonMetadata::from_output(true, vec![0xc3]), Err(OutputError::NotUtf8));
    assert_eq!(JsonMetadata::from_output(true, vec![0xed, 0xa0, 0x80]), Err(OutputError::NotUtf8));
}

#[test]
fn flake_ref_holds_its_text() {
    let flake_ref = FlakeRef("./test_data".to_string());
    assert_eq!(flake_ref.0, "./test_data");
}

#[test]
fn clone_of_an_address_equals_the_address() {
    let url = ResolvedUrl::parse("git+file:///repo?dir=a&rev=b").unwrap();
    assert_eq!(url.clone(), url);
    let graph = metadata("file", "/repo", vec![pair("dir", "sub")]);
    assert_eq!(graph.clone(), graph);
}

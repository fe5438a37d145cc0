use fstn::args::{fsutil_function, image_ref, label_or_default, param_valid, split_path, ImageRef};

fn owned(parts: &[&str]) -> Vec<String> {
    parts.iter().map(|p| p.to_string()).collect()
}

#[test]
fn param_valid_parts_at_the_first_equals_sign() {
    assert_eq!(param_valid("key=value"), Ok(("key".to_string(), "value".to_string())));
    assert_eq!(param_valid("a=b=c"), Ok(("a".to_string(), "b=c".to_string())));
    assert_eq!(param_valid("="), Ok(("".to_string(), "".to_string())));
    assert_eq!(param_valid("=v"), Ok(("".to_string(), "v".to_string())));
    assert_eq!(param_valid("k="), Ok(("k".to_string(), "".to_string())));
    assert_eq!(param_valid("k=="), Ok(("k".to_string(), "=".to_string())));
}

#[test]
fn param_valid_counts_characters_not_bytes() {
    assert_eq!(param_valid("clé=värde"), Ok(("clé".to_string(), "värde".to_string())));
    assert_eq!(param_valid("日本=語"), Ok(("日本".to_string(), "語".to_string())));
}

#[test]
fn param_valid_refuses_a_parameter_without_equals_sign() {
    let message = "argument must be of the form key=value".to_string();
    assert_eq!(param_valid("keyvalue"), Err(message.clone()));
    assert_eq!(param_valid(""), Err(message.clone()));
    assert_eq!(param_valid("key:value"), Err(message));
}

#[test]
fn split_path_gives_what_stands_between_the_colons() {
    assert_eq!(split_path("a:b:c"), owned(&["a", "b", "c"]));
    assert_eq!(split_path("home:<user,user>:fsutil"), owned(&["home", "<user,user>", "fsutil"]));
    assert_eq!(split_path("single"), owned(&["single"]));
    assert_eq!(split_path("~"), owned(&["~"]));
}

#[test]
fn split_path_keeps_empty_segments() {
    assert_eq!(split_path(""), owned(&[""]));
    assert_eq!(split_path(":"), owned(&["", ""]));
    assert_eq!(split_path("a::b"), owned(&["a", "", "b"]));
    assert_eq!(split_path(":a"), owned(&["", "a"]));
    assert_eq!(split_path("a:"), owned(&["a", ""]));
    assert_eq!(split_path(":::"), owned(&["", "", "", ""]));
}

#[test]
fn split_path_agrees_with_the_standard_split() {
    for path in ["", "a", ":", "a:b", "x:y:z:", "::", "é:ü", "no colon here", "a=b:c=d"] {
        let expected: Vec<String> = path.split(':').map(|p| p.to_string()).collect();
        assert_eq!(split_path(path), expected);
        assert_eq!(split_path(path).join(":"), path);
    }
}

#[test]
fn image_ref_tells_an_upload_from_a_path() {
    assert_eq!(image_ref("@local/app.img"), ImageRef::Upload("local/app.img".to_string()));
    assert_eq!(image_ref("@"), ImageRef::Upload("".to_string()));
    assert_eq!(image_ref("@@x"), ImageRef::Upload("@x".to_string()));
    assert_eq!(image_ref("@a:b"), ImageRef::Upload("a:b".to_string()));
    assert_eq!(image_ref("home:images:app"), ImageRef::Path(owned(&["home", "images", "app"])));
    assert_eq!(image_ref("a@b"), ImageRef::Path(owned(&["a@b"])));
    assert_eq!(image_ref(""), ImageRef::Path(owned(&[""])));
}

#[test]
fn label_or_default_falls_back_to_the_default() {
    assert_eq!(label_or_default(Some("S,I".to_string())), "S,I");
    assert_eq!(label_or_default(Some("".to_string())), "");
    assert_eq!(label_or_default(None), "T,T");
}

#[test]
fn fsutil_function_is_the_callers_own_or_that_of_the_masquerade() {
    assert_eq!(fsutil_function(None), "~:fsutil");
    assert_eq!(fsutil_function(Some("alice")), "home:<alice,alice>:fsutil");
    assert_eq!(fsutil_function(Some("")), "home:<,>:fsutil");
}

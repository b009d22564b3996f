use crew_admission::{
    form_builder, is_configured, sign, signature_payload, signed_param_list, upload_url,
    UploadImageOptions,
};

fn pairs(v: &[(&str, &str)]) -> Vec<(String, String)> {
    v.iter().map(|(k, x)| (k.to_string(), x.to_string())).collect()
}

fn all_options() -> UploadImageOptions {
    UploadImageOptions {
        folder: Some("avatars".to_string()),
        public_id: Some("user_7".to_string()),
        transformation: Some("c_fill,w_200".to_string()),
    }
}

fn no_options() -> UploadImageOptions {
    UploadImageOptions {
        folder: None,
        public_id: None,
        transformation: None,
    }
}

#[test]
fn signed_params_are_in_key_order() {
    let p = signed_param_list(&all_options(), "1700000000000");
    assert_eq!(
        p,
        pairs(&[
            ("folder", "avatars"),
            ("public_id", "user_7"),
            ("timestamp", "1700000000000"),
            ("transformation", "c_fill,w_200"),
        ])
    );
}

#[test]
fn payload_joins_pairs_with_ampersands() {
    let p = signed_param_list(&all_options(), "42");
    assert_eq!(
        signature_payload(&p),
        "folder=avatars&public_id=user_7&timestamp=42&transformation=c_fill,w_200"
    );
}

#[test]
fn payload_with_only_timestamp() {
    let p = signed_param_list(&no_options(), "42");
    assert_eq!(signature_payload(&p), "timestamp=42");
    assert_eq!(signature_payload(&Vec::new()), "");
}

#[test]
fn signature_is_sha1_hex_of_payload_and_secret() {
    assert_eq!(
        sign(&"ab".to_string(), "c"),
        "a9993e364706816aba3e25717850c26c9cd0d89d"
    );
}

#[test]
fn form_holds_params_resource_type_signature_and_key() {
    let f = form_builder(&no_options(), "42", "key1", "secret");
    let expected_sig = sign(&"timestamp=42".to_string(), "secret");
    assert_eq!(expected_sig.len(), 40);
    assert_eq!(
        f,
        vec![
            ("timestamp".to_string(), "42".to_string()),
            ("resource_type".to_string(), "image".to_string()),
            ("signature".to_string(), expected_sig),
            ("api_key".to_string(), "key1".to_string()),
        ]
    );
}

#[test]
fn placeholder_accounts_are_not_configured() {
    assert!(!is_configured(&"demo".to_string(), &"987".to_string()));
    assert!(!is_configured(&"mycloud".to_string(), &"123456789".to_string()));
    assert!(is_configured(&"mycloud".to_string(), &"987".to_string()));
}

#[test]
fn upload_url_names_the_cloud() {
    assert_eq!(
        upload_url("mycloud"),
        "https://api.cloudinary.com/v1_1/mycloud/image/upload"
    );
}

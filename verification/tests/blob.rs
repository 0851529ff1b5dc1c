use platform::blob::git_blob_decode;
use platform::error::Error;
use platform::model::GitBlob;

fn blob(content: &str) -> GitBlob {
    GitBlob {
        sha: "s".to_string(),
        size: content.len() as u32,
        encoding: "base64".to_string(),
        content: content.to_string(),
    }
}

#[test]
fn blob_content_is_decoded_from_base64() {
    assert_eq!(git_blob_decode(&blob("aGVsbG8gd29ybGR+Cg==")).unwrap(), b"hello world~\n".to_vec());
    assert_eq!(git_blob_decode(&blob("bmFtZTogYXBw")).unwrap(), b"name: app".to_vec());
    assert_eq!(git_blob_decode(&blob("")).unwrap(), Vec::<u8>::new());
    assert_eq!(git_blob_decode(&blob("AP8=")).unwrap(), vec![0u8, 255u8]);
}

#[test]
fn blob_content_that_is_not_base64_is_an_error() {
    assert!(matches!(git_blob_decode(&blob("not base64!")), Err(Error::Base64(_))));
    assert!(matches!(git_blob_decode(&blob("aGVsbG8")), Err(Error::Base64(_))));
    assert!(matches!(git_blob_decode(&blob("aGVs\nbG8=")), Err(Error::Base64(_))));
}

use beckon::screenshot::{answered, data_url, target_size, temp_name, Answered, MAX_EDGE};

#[test]
fn sizes() {
    assert_eq!(MAX_EDGE, 1568);
    assert_eq!(target_size(1568, 900), None);
    assert_eq!(target_size(900, 1568), None);
    assert_eq!(target_size(2160, 3840), Some((882, 1568)));
    assert_eq!(target_size(1200, 1920), Some((980, 1568)));
    assert_eq!(target_size(i32::MAX, i32::MAX), Some((1568, 1568)));
    assert_eq!(target_size(3840, 2160), Some((1568, 882)));
    assert_eq!(target_size(1569, 1), Some((1568, 1)));
    assert_eq!(target_size(1569, 1000), Some((1568, 999)));
    assert_eq!(target_size(4000, 0), Some((1568, 1)));
}

#[test]
fn names() {
    assert_eq!(temp_name(42), "elementary-intelligence-42.png");
    assert_eq!(data_url("QUJD"), "data:image/png;base64,QUJD");
}

#[test]
fn no_file_is_left() {
    match answered("/tmp/a", true, "/tmp/a") {
        Answered::Encode { file, remove } => {
            assert_eq!(file, "/tmp/a");
            assert_eq!(remove, vec!["/tmp/a"]);
        }
        _ => panic!("expected a picture"),
    }
    match answered("/tmp/a", true, "/tmp/b") {
        Answered::Encode { file, remove } => {
            assert_eq!(file, "/tmp/b");
            assert_eq!(remove, vec!["/tmp/b", "/tmp/a"]);
        }
        _ => panic!("expected a picture"),
    }
    match answered("/tmp/a", false, "") {
        Answered::Fail { remove, error } => {
            assert_eq!(remove, vec!["/tmp/a"]);
            assert_eq!(error, "compositor reported failure");
        }
        _ => panic!("expected a failure"),
    }
}

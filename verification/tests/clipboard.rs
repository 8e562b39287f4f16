use shared_clipboard::clipboard::{Clipboard, ClipboardReadError};

#[test]
fn basics() {
    let mut cb = Clipboard::init();

    println!("!-----------------------!");
    let stuff = cb.get_contents(Vec::new()).unwrap();
    println!("{}\n", format!("{:?}", stuff));
    println!("!-----------------------!");

    let data = "HAHUHY";
    cb.set_contents(data.to_string());
    assert!(cb.get_contents(data.as_bytes().to_vec()).unwrap().is_none());
    assert!(cb.get_contents(data.as_bytes().to_vec()).unwrap().is_none());
}

#[test]
fn a_change_is_reported_once() {
    let mut cb = Clipboard::init();
    assert_eq!(cb.get_contents(Vec::new()), Ok(None));
    assert_eq!(
        cb.get_contents("copied".as_bytes().to_vec()),
        Ok(Some("copied".to_string()))
    );
    assert_eq!(cb.get_contents("copied".as_bytes().to_vec()), Ok(None));
    assert_eq!(
        cb.get_contents("gr\u{fc}n".as_bytes().to_vec()),
        Ok(Some("gr\u{fc}n".to_string()))
    );
}

#[test]
fn writing_the_same_text_twice_is_a_no_op() {
    let mut cb = Clipboard::init();
    assert!(!cb.set_contents(String::new()));
    assert!(cb.set_contents("one".to_string()));
    assert!(!cb.set_contents("one".to_string()));
    assert!(cb.set_contents("two".to_string()));
}

#[test]
fn bytes_that_are_not_text_are_refused() {
    let mut cb = Clipboard::init();
    cb.set_contents("kept".to_string());
    assert_eq!(
        cb.get_contents(vec![0x66, 0xff, 0x6f]),
        Err(ClipboardReadError::NotUtf8)
    );
    assert_eq!(cb.get_contents("kept".as_bytes().to_vec()), Ok(None));
}

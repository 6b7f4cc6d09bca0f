use nero::utils::{
    ceiling_division, inttobase64, split_string, trim_bytes_right, u8_slice_to_lower,
    unsplit_string,
};

#[test]
fn test_inttobase64() {
    assert_eq!(inttobase64(16, 3).as_slice(), b"AAQ");
    assert_eq!(inttobase64(80, 3).as_slice(), b"ABQ");
    assert_eq!(inttobase64(4176, 3).as_slice(), b"BBQ");
    assert_eq!(inttobase64(21399, 3).as_slice(), b"FOX");
    assert_eq!(inttobase64(91397, 3).as_slice(), b"WUF");
}

#[test]
fn test_ceiling_division() {
    assert_eq!(ceiling_division(499, 500), 1);
    assert_eq!(ceiling_division(500, 500), 1);
    assert_eq!(ceiling_division(501, 500), 2);
}

#[test]
fn test_unsplit_string() {
    let my_argv: Vec<Vec<u8>> = vec![
        b"A".to_vec(),
        b"BB".to_vec(),
        b"TEST".to_vec(),
        b"SOMETING".to_vec(),
        b"FDSAADFS".to_vec(),
        b"FADS".to_vec(),
        b"ASDf".to_vec(),
    ];

    let new_unsplit = unsplit_string(&my_argv, 7, 3, 3);
    assert_eq!(new_unsplit.as_slice(), b"SOMETING FDSAADFS FADS ");
    assert_eq!(new_unsplit.len(), 23);

    let my_argv: Vec<Vec<u8>> = vec![
        b"B".to_vec(),
        b"#channel".to_vec(),
        b"9999999999".to_vec(),
        b"+stnzl".to_vec(),
        b"554".to_vec(),
        b"AAAAA:o,AAAAB,AAAAC".to_vec(),
    ];

    let new_unsplit = unsplit_string(&my_argv, 6, 3, 2);
    assert_eq!(new_unsplit.as_slice(), b"+stnzl 554 ");
    assert_eq!(new_unsplit.len(), 11);
}

#[test]
fn test_split_string() {
    let s = split_string(b"+ntl 34");
    assert_eq!(s.len(), 2);
    assert_eq!(s[0], b"+ntl");
    assert_eq!(s[1], b"34");

    let s = split_string(b"fdas fasd adsf asfd dfas");
    assert_eq!(s.len(), 5);
    assert_eq!(s[0], b"fdas");
    assert_eq!(s[1], b"fasd");
    assert_eq!(s[2], b"adsf");
    assert_eq!(s[3], b"asfd");
    assert_eq!(s[4], b"dfas");

    let s = split_string(b"aaaaaaa");
    assert_eq!(s.len(), 1);
    assert_eq!(s[0], b"aaaaaaa");

    let s = split_string(b"");
    assert_eq!(s.len(), 0);
}

#[test]
fn test_u8_slice_to_lower() {
    let caps: &[u8] = b"THIS IS IN ALL CAPS";
    let lowered = u8_slice_to_lower(caps);
    assert_eq!(lowered.len(), 19);
    assert_eq!(lowered.as_slice(), b"this is in all caps");
}

#[test]
fn test_trim_bytes_right() {
    let mystr: &[u8] = b"This has newlines and a carriage return\r\n";
    let clean = trim_bytes_right(mystr);
    assert_eq!(clean.len(), 39);
    assert_eq!(clean[38], b'n');
}

use ssh_fleet::error::FailureKind;
use ssh_fleet::vault::{
    is_framed, open_container, open_outcome, seal_container, seal_outcome, sealed_end, PREFIX_SIZE,
};

fn text(s: &str) -> String {
    s.to_string()
}

fn header(declared: u64) -> Vec<u8> {
    let mut bytes: Vec<u8> = vec![0x7f, 0xc0, b'\n', 1, 1, 1, 1, 0];
    bytes.extend_from_slice(&[0x11; 16]);
    bytes.extend_from_slice(&[0x22; 12]);
    bytes.extend_from_slice(&declared.to_be_bytes());
    bytes.extend_from_slice(&[0x33; 16]);
    bytes
}

#[test]
fn the_prefix_has_sixty_bytes() {
    assert_eq!(PREFIX_SIZE, 60);
    assert_eq!(PREFIX_SIZE, cocoon::PREFIX_SIZE);
    assert_eq!(header(0).len(), PREFIX_SIZE);
}

#[test]
fn the_declared_length_is_read_from_the_header() {
    assert!(is_framed(&header(0)));
    assert!(!is_framed(&header(1)));
    let mut container = header(0x0102);
    container.extend_from_slice(&vec![0u8; 0x0102]);
    assert!(is_framed(&container));
    container.pop();
    assert!(!is_framed(&container));
    container.extend_from_slice(&[0, 0, 0]);
    assert!(is_framed(&container));
}

#[test]
fn each_byte_of_the_declared_length_has_its_weight() {
    for place in 0..8 {
        let declared: u64 = 1 << (8 * place);
        let mut short = header(declared);
        short.extend_from_slice(&vec![0u8; 255]);
        assert_eq!(is_framed(&short), declared <= 255);
    }
    let mut container = header(0x01_0000);
    container.extend_from_slice(&vec![0u8; 0x01_0000]);
    assert!(is_framed(&container));
}

#[test]
fn the_encrypted_data_ends_where_the_header_says() {
    assert_eq!(sealed_end(&header(0)), Some(60));
    let mut container = header(5);
    container.extend_from_slice(&[0u8; 9]);
    assert_eq!(sealed_end(&container), Some(65));
    assert_eq!(sealed_end(&container[..64]), None);
    assert_eq!(sealed_end(&container[..65]), Some(65));
    assert_eq!(sealed_end(&header(u64::MAX)), None);
}

#[test]
fn a_short_container_is_not_framed() {
    for length in [0usize, 1, 36, 43, 44, 59] {
        assert!(!is_framed(&vec![0u8; length]));
    }
    assert!(is_framed(&vec![0u8; 60]));
}

#[test]
fn a_container_that_declares_more_than_it_holds_is_refused() {
    let pass = text("correct horse");
    for declared in [4, 5, 0x1_0000_0000, u64::MAX - 60, u64::MAX - 59, u64::MAX] {
        let mut container = header(declared);
        container.extend_from_slice(&[0x44; 3]);
        assert!(!is_framed(&container));
        let failure = open_container(&pass, &container).unwrap_err();
        assert_eq!(failure.kind, FailureKind::DecryptionFailure);
        assert_eq!(failure.message, "unable to decrypt data. Wrong Password?");
    }
}

#[test]
fn bytes_that_are_no_container_are_a_decryption_failure() {
    let pass = text("correct horse");
    let zeros = vec![0u8; 80];
    assert!(is_framed(&zeros));
    let failure = open_container(&pass, &zeros).unwrap_err();
    assert_eq!(failure.kind, FailureKind::DecryptionFailure);
    let failure = open_container(&pass, &[]).unwrap_err();
    assert_eq!(failure.kind, FailureKind::DecryptionFailure);
}

#[test]
fn a_container_gives_its_data_back_to_its_passphrase() {
    let pass = text("correct horse");
    let data = b"the data to keep".to_vec();
    let container = seal_container(&pass, &data).unwrap();
    assert_eq!(container.len(), data.len() + PREFIX_SIZE);
    assert!(is_framed(&container));
    assert_eq!(&container[..3], &[0x7f, 0xc0, b'\n']);
    assert_eq!(&container[36..44], &(data.len() as u64).to_be_bytes());
    assert_ne!(&container[PREFIX_SIZE..], &data[..]);
    assert_eq!(open_container(&pass, &container).unwrap(), data);
}

#[test]
fn a_container_keeps_its_data_from_another_passphrase() {
    let container = seal_container(&text("correct horse"), b"the data to keep").unwrap();
    let failure = open_container(&text("battery staple"), &container).unwrap_err();
    assert_eq!(failure.kind, FailureKind::DecryptionFailure);
    assert_eq!(failure.message, "unable to decrypt data. Wrong Password?");
}

#[test]
fn a_damaged_container_is_refused() {
    let pass = text("correct horse");
    let container = seal_container(&pass, b"the data to keep").unwrap();
    // One in the salt, one in the tag, one in the data.
    for place in [10, 50, container.len() - 1] {
        let mut damaged = container.clone();
        damaged[place] ^= 1;
        let failure = open_container(&pass, &damaged).unwrap_err();
        assert_eq!(failure.kind, FailureKind::DecryptionFailure);
    }
}

#[test]
fn bytes_after_the_declared_data_are_of_no_account() {
    let pass = text("correct horse");
    let mut container = seal_container(&pass, b"the data to keep").unwrap();
    container.extend_from_slice(&[1, 2, 3]);
    assert_eq!(open_container(&pass, &container).unwrap(), b"the data to keep".to_vec());
}

#[test]
fn two_containers_of_the_same_data_differ() {
    let pass = text("correct horse");
    let one = seal_container(&pass, b"same").unwrap();
    let two = seal_container(&pass, b"same").unwrap();
    assert_ne!(one, two);
}

#[test]
fn the_empty_passphrase_and_the_empty_data_are_in_order() {
    let pass = String::new();
    let container = seal_container(&pass, &[]).unwrap();
    assert_eq!(container.len(), PREFIX_SIZE);
    assert_eq!(open_container(&pass, &container).unwrap(), Vec::<u8>::new());
}

#[test]
fn cocoon_unwraps_what_we_seal() {
    let pass = text("correct horse");
    let container = seal_container(&pass, b"the data to keep").unwrap();
    let theirs = cocoon::Cocoon::new(pass.as_bytes()).unwrap(&container).unwrap();
    assert_eq!(theirs, b"the data to keep".to_vec());
}

#[test]
fn we_open_what_cocoon_wraps() {
    let pass = text("correct horse");
    let container = cocoon::Cocoon::new(pass.as_bytes()).wrap(b"the data to keep").unwrap();
    assert_eq!(open_container(&pass, &container).unwrap(), b"the data to keep".to_vec());
}

#[test]
fn a_failed_attempt_is_handed_on_as_the_failure_of_its_kind() {
    let opened = open_outcome(Err(cocoon::Error::Cryptography), vec![9]).unwrap_err();
    assert_eq!(opened.kind, FailureKind::DecryptionFailure);
    assert_eq!(opened.message, "unable to decrypt data. Wrong Password?");
    let opened = open_outcome(Err(cocoon::Error::UnrecognizedFormat), vec![9]).unwrap_err();
    assert_eq!(opened.kind, FailureKind::DecryptionFailure);
    assert_eq!(open_outcome(Ok(()), vec![1, 2]).unwrap(), vec![1, 2]);

    let sealed = seal_outcome(Err(cocoon::Error::TooLarge), vec![9]).unwrap_err();
    assert_eq!(sealed.kind, FailureKind::PersistenceIOFailure);
    assert_eq!(sealed.message, "unable to encrypt data");
    let mut expected = vec![7u8; 60];
    expected.extend_from_slice(&[3, 4]);
    assert_eq!(seal_outcome(Ok([7u8; 60]), vec![3, 4]).unwrap(), expected);
}

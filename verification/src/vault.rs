//! The encrypted container that holds data under a passphrase.
//!
//! The container is that of `cocoon`: a prefix of 60 bytes, which is a
//! header with the salt, the nonce and the length of the data, and a tag;
//! then the encrypted data. The encryption is `cocoon`'s; cutting a
//! container into its parts and putting it together is done here.

use crate::error::{Failure, FailureKind};
use vstd::prelude::*;
use vstd::slice::{slice_subrange, slice_to_vec};
use vstd::utf8::encode_utf8;

verus! {

/// The bytes that a container has before the encrypted data: a header of 44
/// bytes, whose last 8 give the length of the data, and a tag of 16.
pub const PREFIX_SIZE: usize = 60;

/// `cocoon::Error`, which says why data could not be encrypted or decrypted.
#[verifier::external_type_specification]
#[verifier::external_body]
pub struct ExCocoonError(cocoon::Error);

/// What `cocoon::Cocoon::decrypt` leaves in the place of the encrypted data
/// for a password, a prefix and the encrypted data: the data in the clear,
/// or `None` where it reports an error.
pub uninterp spec fn decrypted(password: Seq<u8>, prefix: Seq<u8>, data: Seq<u8>) -> Option<
    Seq<u8>,
>;

/// The length of the data that a prefix declares: the bytes 36 to 43, the
/// most significant first.
pub open spec fn declared_length(prefix: Seq<u8>) -> nat {
    (prefix[36] * 0x100_0000_0000_0000 + prefix[37] * 0x1_0000_0000_0000 + prefix[38]
        * 0x100_0000_0000 + prefix[39] * 0x1_0000_0000 + prefix[40] * 0x100_0000 + prefix[41]
        * 0x1_0000 + prefix[42] * 0x100 + prefix[43]) as nat
}

/// Whether data of this length is within what the cipher takes: fewer
/// blocks of 64 bytes than a `u32` can count.
pub open spec fn within_cipher(length: nat) -> bool {
    length < 0x3f_ffff_ffc0
}

/// `cocoon::Cocoon::new` with the password, then `encrypt` on the data, in
/// place: the prefix that goes with the encrypted data, or the error. The
/// salt and the nonce are random, so two calls give different results. The
/// data keeps its length. The one error of `encrypt` is that of the cipher,
/// ChaCha20-Poly1305, which refuses data of `u32::MAX` blocks or more and
/// nothing else; so a prefix comes back for all data within that. Every
/// prefix that comes back declares the length of the data, and `decrypt`
/// with the same password and this prefix turns the encrypted data into
/// what the data was.
#[verifier::external_body]
fn cocoon_encrypt(password: &[u8], data: &mut Vec<u8>) -> (made: Result<[u8; 60], cocoon::Error>)
    ensures
        final(data)@.len() == old(data)@.len(),
        within_cipher(old(data)@.len()) ==> made is Ok,
        made matches Ok(prefix) ==> declared_length(prefix@) == old(data)@.len() && decrypted(
            password@,
            prefix@,
            final(data)@,
        ) == Some(old(data)@),
{
    cocoon::Cocoon::new(password).encrypt(data)
}

/// `cocoon::Cocoon::parse_only` with the password, then `decrypt` on the
/// data, in place, with the prefix: done, or the error. The data keeps its
/// length. What is left in the place of the data when it is done is what
/// `decrypted` names for this password, this prefix and this data.
#[verifier::external_body]
fn cocoon_decrypt(password: &[u8], data: &mut Vec<u8>, prefix: &[u8]) -> (done: Result<
    (),
    cocoon::Error,
>)
    ensures
        final(data)@.len() == old(data)@.len(),
        match done {
            Ok(_) => decrypted(password@, prefix@, old(data)@) == Some(final(data)@),
            Err(_) => decrypted(password@, prefix@, old(data)@) is None,
        },
{
    cocoon::Cocoon::parse_only(password).decrypt(data, prefix)
}

/// The container is long enough for its prefix and for the data that the
/// prefix declares.
pub open spec fn framed(container: Seq<u8>) -> bool {
    container.len() >= PREFIX_SIZE && declared_length(container) + PREFIX_SIZE <= container.len()
}

/// The encrypted data of a framed container: as many bytes after the prefix
/// as the prefix declares.
pub open spec fn sealed_data(container: Seq<u8>) -> Seq<u8> {
    container.subrange(PREFIX_SIZE as int, PREFIX_SIZE + declared_length(container))
}

/// The data that a container gives up to a passphrase: that of a framed
/// container whose encrypted data is decrypted with the bytes of the
/// passphrase and the prefix of the container.
pub open spec fn opened(passphrase: Seq<char>, container: Seq<u8>) -> Option<Seq<u8>> {
    if framed(container) {
        decrypted(
            encode_utf8(passphrase),
            container.take(PREFIX_SIZE as int),
            sealed_data(container),
        )
    } else {
        None
    }
}

fn declared(container: &[u8]) -> (length: u64)
    requires
        container@.len() >= PREFIX_SIZE,
    ensures
        length == declared_length(container@),
{
    let b0: u64 = container[36] as u64;
    let b1: u64 = container[37] as u64;
    let b2: u64 = container[38] as u64;
    let b3: u64 = container[39] as u64;
    let b4: u64 = container[40] as u64;
    let b5: u64 = container[41] as u64;
    let b6: u64 = container[42] as u64;
    let b7: u64 = container[43] as u64;
    b0 * 0x100_0000_0000_0000 + b1 * 0x1_0000_0000_0000 + b2 * 0x100_0000_0000 + b3
        * 0x1_0000_0000 + b4 * 0x100_0000 + b5 * 0x1_0000 + b6 * 0x100 + b7
}

/// Where the encrypted data of a framed container ends, or `None` where the
/// container is not framed.
pub fn sealed_end(container: &[u8]) -> (end: Option<usize>)
    ensures
        match end {
            Some(at) => framed(container@) && at == PREFIX_SIZE + declared_length(container@),
            None => !framed(container@),
        },
{
    if container.len() >= PREFIX_SIZE {
        let length: u64 = declared(container);
        if length <= (container.len() - PREFIX_SIZE) as u64 {
            Some(PREFIX_SIZE + length as usize)
        } else {
            None
        }
    } else {
        None
    }
}

/// Whether the container is framed.
pub fn is_framed(container: &[u8]) -> (yes: bool)
    ensures
        yes == framed(container@),
{
    sealed_end(container).is_some()
}

/// What is handed on of an attempt to decrypt: the data that the attempt
/// left, or the one failure that stands for a wrong passphrase and for
/// damage alike.
pub fn open_outcome(attempt: Result<(), cocoon::Error>, left: Vec<u8>) -> (data: Result<
    Vec<u8>,
    Failure,
>)
    ensures
        match attempt {
            Ok(_) => data == Ok::<Vec<u8>, Failure>(left),
            Err(_) => data matches Err(e) && e.carries(
                FailureKind::DecryptionFailure,
                "unable to decrypt data. Wrong Password?"@,
            ),
        },
{
    match attempt {
        Ok(_) => Ok(left),
        Err(_) => Err(
            Failure::new(
                FailureKind::DecryptionFailure,
                "unable to decrypt data. Wrong Password?".to_string(),
            ),
        ),
    }
}

/// What is handed on of an attempt to encrypt: the container, which is the
/// prefix and after it the data that the attempt left, or the failure.
pub fn seal_outcome(attempt: Result<[u8; 60], cocoon::Error>, left: Vec<u8>) -> (container: Result<
    Vec<u8>,
    Failure,
>)
    ensures
        match attempt {
            Ok(prefix) => container matches Ok(held) && held@ == prefix@ + left@,
            Err(_) => container matches Err(e) && e.carries(
                FailureKind::PersistenceIOFailure,
                "unable to encrypt data"@,
            ),
        },
{
    match attempt {
        Ok(prefix) => {
            let mut held: Vec<u8> = Vec::new();
            let mut i: usize = 0;
            while i < 60
                invariant
                    i <= 60,
                    held@ == prefix@.take(i as int),
                decreases 60 - i,
            {
                held.push(prefix[i]);
                assert(prefix@.take(i + 1) =~= prefix@.take(i as int).push(prefix@[i as int]));
                i = i + 1;
            }
            assert(prefix@.take(60) =~= prefix@);
            let mut left = left;
            held.append(&mut left);
            Ok(held)
        },
        Err(_) => Err(
            Failure::new(FailureKind::PersistenceIOFailure, "unable to encrypt data".to_string()),
        ),
    }
}

/// Opens a container with a passphrase.
pub fn open_container(passphrase: &String, container: &[u8]) -> (data: Result<Vec<u8>, Failure>)
    ensures
        match opened(passphrase@, container@) {
            Some(held) => data matches Ok(bytes) && bytes@ == held,
            None => data matches Err(e) && e.carries(
                FailureKind::DecryptionFailure,
                "unable to decrypt data. Wrong Password?"@,
            ),
        },
{
    match sealed_end(container) {
        Some(end) => {
            let prefix = slice_subrange(container, 0, PREFIX_SIZE);
            let mut sealed = slice_to_vec(slice_subrange(container, PREFIX_SIZE, end));
            assert(prefix@ =~= container@.take(PREFIX_SIZE as int));
            assert(sealed@ =~= sealed_data(container@));
            let attempt = cocoon_decrypt(passphrase.as_str().as_bytes(), &mut sealed, prefix);
            open_outcome(attempt, sealed)
        },
        None => Err(
            Failure::new(
                FailureKind::DecryptionFailure,
                "unable to decrypt data. Wrong Password?".to_string(),
            ),
        ),
    }
}

/// Makes a container that holds the data under a passphrase. A container
/// comes back for all data within what the cipher takes. It is framed, is
/// longer than the data by the prefix, and gives the data back to the same
/// passphrase.
pub fn seal_container(passphrase: &String, data: &[u8]) -> (container: Result<Vec<u8>, Failure>)
    ensures
        within_cipher(data@.len()) ==> container is Ok,
        match container {
            Ok(held) => held@.len() == data@.len() + PREFIX_SIZE && opened(passphrase@, held@)
                == Some(data@),
            Err(e) => e.carries(FailureKind::PersistenceIOFailure, "unable to encrypt data"@),
        },
{
    let mut sealed = slice_to_vec(data);
    let attempt = cocoon_encrypt(passphrase.as_str().as_bytes(), &mut sealed);
    let ghost made = attempt;
    let ghost left = sealed@;
    let container = seal_outcome(attempt, sealed);
    proof {
        if made is Ok && container is Ok {
            let prefix = made->Ok_0;
            let held = container->Ok_0;
            assert(held@.take(PREFIX_SIZE as int) =~= prefix@);
            assert(sealed_data(held@) =~= left);
        }
    }
    container
}

} // verus!

//! What the server answers, and to whom.
use vstd::prelude::*;
use vstd::utf8::encode_utf8;

use crate::engine::types::{EngineError, Failure};
use crate::outside::codec::base64_encoded;
use crate::server::access::{expected_header, octal, socket_mode, without_prefixes};
use crate::server::assets::{place_of, served};
use crate::server::files::{total_size, unix_time, FileNode, NANOS};
use crate::server::types::{answers, AppError};
use crate::text::{trim_start, CharClass};

verus! {

/// The header that lets a user in is the scheme and the user's name and password in base 64.
pub proof fn law_header(auth: Seq<char>)
    ensures
        expected_header(auth) == "Basic "@ + base64_encoded(encode_utf8(auth)),
{
}

/// The path of a socket is what stands behind the scheme, however often that is written.
pub proof fn law_socket_path(path: Seq<char>)
    ensures
        !"unix:"@.is_prefix_of(path) ==> without_prefixes(path, "unix:"@) == path,
        without_prefixes("unix:"@ + path, "unix:"@) == without_prefixes(path, "unix:"@),
        !"unix:"@.is_prefix_of(without_prefixes(path, "unix:"@)),
    decreases path.len(),
{
    reveal_strlit("unix:");
    let s = "unix:"@ + path;
    assert("unix:"@ =~= s.take(5));
    assert(s.skip(5) =~= path);
    if "unix:"@.is_prefix_of(path) {
        law_socket_path(path.skip(5));
    }
}

/// A mode in octal digits.
pub open spec fn octal_digits(mode: nat) -> Seq<char>
    decreases mode,
{
    if mode < 8 {
        seq![(mode + 48) as char]
    } else {
        octal_digits(mode / 8).push((mode % 8 + 48) as char)
    }
}

proof fn lemma_octal_digits(mode: nat)
    ensures
        octal_digits(mode).len() > 0,
        octal(octal_digits(mode)) == Some(mode),
        mode > 0 ==> octal_digits(mode)[0] != '0',
        octal_digits(mode)[0] != '+',
    decreases mode,
{
    reveal_with_fuel(octal, 2);
    let digits = octal_digits(mode);
    if mode < 8 {
        assert(digits.drop_last() =~= Seq::empty());
    } else {
        lemma_octal_digits(mode / 8);
        assert(digits.drop_last() =~= octal_digits(mode / 8));
        assert(digits[0] == octal_digits(mode / 8)[0]);
    }
}

/// The permissions of a socket are read in octal digits, with or without a 0 or a plus sign
/// before them.
pub proof fn law_socket_mode(mode: nat)
    requires
        0 < mode <= u32::MAX,
    ensures
        socket_mode(octal_digits(mode)) == Some(mode),
        socket_mode(seq!['0'] + octal_digits(mode)) == Some(mode),
        socket_mode(seq!['+'] + octal_digits(mode)) == Some(mode),
{
    lemma_octal_digits(mode);
    let digits = octal_digits(mode);
    let padded = seq!['0'] + digits;
    assert(padded.skip(1) =~= digits);
    assert(trim_start(digits, CharClass::Zero) == digits);
    assert(trim_start(padded, CharClass::Zero) == digits);
    let signed = seq!['+'] + digits;
    assert(signed.skip(1) =~= digits);
    assert(trim_start(signed, CharClass::Zero) == signed);
}

/// Permissions that hold anything but octal digits are refused.
pub proof fn law_no_socket_mode(digits: Seq<char>, i: int)
    requires
        0 <= i < digits.len(),
        !('0' <= digits[i] && digits[i] <= '7'),
    ensures
        octal(digits) is None,
    decreases digits.len(),
{
    if i < digits.len() - 1 {
        assert(digits.drop_last()[i] == digits[i]);
        law_no_socket_mode(digits.drop_last(), i);
    }
}

/// A file is found where its name first stands, and only where it stands.
pub proof fn law_place(names: Seq<Seq<char>>, name: Seq<char>)
    ensures
        match place_of(names, name) {
            Some(i) => 0 <= i < names.len() && names[i] == name && forall|k: int|
                0 <= k < i ==> #[trigger] names[k] != name,
            None => !names.contains(name),
        },
    decreases names.len(),
{
    if names.len() > 0 {
        let front = names.drop_last();
        law_place(front, name);
        match place_of(front, name) {
            Some(i) => {
                assert(names[i] == front[i]);
                assert forall|k: int| 0 <= k < i implies #[trigger] names[k] != name by {
                    assert(front[k] != name);
                }
            },
            None => {
                assert forall|k: int| 0 <= k < front.len() implies #[trigger] names[k] != name by {
                    assert(front[k] == names[k]);
                    if front[k] == name {
                        assert(front.contains(name));
                    }
                }
            },
        }
    }
}

/// A file of the user interface is served under its name, behind any slashes; whatever is
/// none is answered with the start page.
pub proof fn law_served(names: Seq<Seq<char>>, path: Seq<char>)
    ensures
        ({
            let name = trim_start(path, CharClass::Slash);
            &&& name.len() > 0 && names.contains(name) ==> (served(names, path) matches Some(i)
                && 0 <= i < names.len() && names[i] == name)
            &&& name.len() == 0 || !names.contains(name) ==> match served(names, path) {
                Some(i) => 0 <= i < names.len() && names[i] == "index.html"@,
                None => !names.contains("index.html"@),
            }
        }),
{
    law_place(names, trim_start(path, CharClass::Slash));
    law_place(names, "index.html"@);
}

/// The size of files taken together is the sum of the sizes of each.
pub proof fn law_total_size(nodes: Seq<FileNode>, node: FileNode)
    ensures
        total_size(Seq::empty()) == 0,
        total_size(nodes.push(node)) == total_size(nodes) + node.size,
{
    assert(nodes.push(node).drop_last() =~= nodes);
}

/// A time before or behind the epoch is the same time in whole seconds and the nanoseconds
/// that come to them, which are less than a second.
pub proof fn law_unix_time(before: bool, seconds: int, nanos: int)
    requires
        0 <= seconds,
        0 <= nanos < NANOS,
    ensures
        ({
            let (whole, rest) = unix_time(before, seconds, nanos);
            &&& 0 <= rest < NANOS
            &&& !before ==> whole * NANOS + rest == seconds * NANOS + nanos
            &&& before ==> whole * NANOS + rest == -(seconds * NANOS + nanos)
        }),
{
}

/// A lack of room is answered as such, with its own message; every other failure as an
/// internal error, with a message that names what failed.
pub proof fn law_failures_are_answered(answer: AppError, failure: Failure)
    requires
        answers(answer, failure),
    ensures
        match failure {
            Failure::Engine(EngineError::InsufficientStorage(m)) => answer matches
                AppError::InsufficientStorage(told) && told@ == m@,
            Failure::Engine(EngineError::Database(m)) => answer matches AppError::Internal(told)
                && told@ == "Database error: "@ + m@,
            Failure::Engine(EngineError::Serialization(m)) => answer matches AppError::Internal(
                told,
            ) && told@ == "Serialization error: "@ + m@,
            Failure::Engine(EngineError::Io(m)) => answer matches AppError::Internal(told) && told@
                == "IO error: "@ + m@,
            Failure::Engine(EngineError::Torrent(m)) => answer matches AppError::Internal(told)
                && told@ == "Torrent error: "@ + m@,
            Failure::Engine(EngineError::Internal(m)) => answer matches AppError::Internal(told)
                && told@ == "Internal error: "@ + m@,
            Failure::Other(m) => answer matches AppError::Internal(told) && told@ == m@,
        },
{
}

} // verus!

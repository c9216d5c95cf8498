//! Decisions of the signing flow.
//!
//! The signer itself is an external process; this module decides what it
//! is asked to do: which key file signs (the first `.pem` in the key
//! directory, or none, in which case signing is skipped without failure),
//! what the signed artifact is called, and where a freshly created key is
//! put.

use vstd::prelude::*;

verus! {

use crate::text::ends_with_str;
use crate::text::str_concat;
use vstd::string::StrSliceExecFns;
use vstd::string::StringExecFns;

/// The key management commands.
pub enum KeyCommands {
    /// Create a new key pair under the given file name.
    New { name: String },
}

/// The planned effect of a key management command: the normalized key
/// file name and the path the key is created at.
pub struct NewKeyPlan {
    pub file_name: String,
    pub path: String,
}

/// Is this file name a PEM key file's?
pub open spec fn is_pem_name(name: Seq<char>) -> bool {
    (".pem"@).is_suffix_of(name)
}

/// Carry out a key management command, as far as it is a decision: the
/// key file name gets `.pem` appended when missing, and the key is placed
/// in the tool's key directory. Creating the key itself is the external
/// signer's work.
pub fn execute_key_command(key_command: KeyCommands) -> (r: NewKeyPlan)
    ensures
        match key_command {
            KeyCommands::New { name } => {
                &&& r.file_name@ == if is_pem_name(name@) {
                    name@
                } else {
                    name@ + ".pem"@
                }
                &&& r.path@ == ".ksmm/key/"@ + r.file_name@
            },
        },
{
    match key_command {
        KeyCommands::New { name } => {
            let file_name = if ends_with_str(name.as_str(), ".pem") {
                name
            } else {
                let mut n = name;
                n.append(".pem");
                n
            };
            let path = str_concat(".ksmm/key/", file_name.as_str());
            NewKeyPlan { file_name, path }
        },
    }
}

/// Index of the first `.pem` file name, if any.
pub fn first_pem(names: &Vec<String>) -> (r: Option<usize>)
    ensures
        match r {
            Some(i) => i < names.len() && is_pem_name(names.deep_view()[i as int]) && forall|
                j: int,
            | 0 <= j < i ==> !is_pem_name(#[trigger] names.deep_view()[j]),
            None => forall|j: int|
                0 <= j < names.len() ==> !is_pem_name(#[trigger] names.deep_view()[j]),
        },
{
    let n = names.len();
    for i in 0..n
        invariant
            n == names.len(),
            forall|j: int| 0 <= j < i ==> !is_pem_name(#[trigger] names.deep_view()[j]),
    {
        if ends_with_str(names[i].as_str(), ".pem") {
            return Some(i);
        }
    }
    None
}

/// The signed variant of an archive name: a `.zip` ending is rewritten to
/// `_signed.zip`, any other name gets `_signed` appended.
pub open spec fn signed_name_spec(file: Seq<char>) -> Seq<char> {
    if (".zip"@).is_suffix_of(file) {
        file.take(file.len() - 4) + "_signed.zip"@
    } else {
        file + "_signed"@
    }
}

/// The name of the signed artifact produced for `file`.
pub fn signed_name(file: &str) -> (r: String)
    ensures
        r@ == signed_name_spec(file@),
{
    let n = file.unicode_len();
    if ends_with_str(file, ".zip") {
        proof {
            reveal_strlit(".zip");
        }
        let stem = file.substring_char(0, n - 4);
        str_concat(stem, "_signed.zip")
    } else {
        str_concat(file, "_signed")
    }
}

/// The planned signing step for one archive.
pub struct SignPlan {
    /// Which entry of the key directory signs.
    pub key_index: usize,
    /// What the signed artifact is called.
    pub output: String,
}

/// Decide the signing step for an archive, given the file names found in
/// the key directory: `None` exactly when no `.pem` key is there, in
/// which case signing is skipped and nothing fails; otherwise the first
/// `.pem` file signs and the signed artifact takes the derived name.
pub fn plan_signing(archive: &str, key_names: &Vec<String>) -> (r: Option<SignPlan>)
    ensures
        match r {
            Some(p) => p.key_index < key_names.len() && is_pem_name(
                key_names.deep_view()[p.key_index as int],
            ) && (forall|j: int|
                0 <= j < p.key_index ==> !is_pem_name(#[trigger] key_names.deep_view()[j]))
                && p.output@ == signed_name_spec(archive@),
            None => forall|j: int|
                0 <= j < key_names.len() ==> !is_pem_name(#[trigger] key_names.deep_view()[j]),
        },
{
    match first_pem(key_names) {
        Some(i) => Some(SignPlan { key_index: i, output: signed_name(archive) }),
        None => None,
    }
}

} // verus!

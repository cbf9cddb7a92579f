//! Authenticode verification.
//!
//! Two callers want different things from this. The consent dialog wants a *description* (who
//! signed the program the user is being asked to approve, or the fact that nobody did) and must
//! show it either way rather than hiding an unsigned program behind a blank field. The
//! bootstrap path wants a *decision*, and there the answer has to be conservative: anything
//! other than a good signature is not a signature.
//!
//! The distinction between `Unsigned` and `Invalid` is worth keeping even though both fail a
//! check. Unsigned is the normal state of a program built on someone's laptop; a broken or
//! mismatched signature means the file was modified after signing, which is a different and
//! much louder fact.

use crate::canonical::hex_char;
use crate::dirs::Platform;
use crate::text::{owned, push_str, string_from_chars};
use vstd::prelude::*;

verus! {

/// What a signature check found.
#[derive(Debug, PartialEq, Eq)]
pub enum Trust {
    /// Valid chain to a trusted root.
    Signed { signer: String },
    /// No signature at all.
    Unsigned,
    /// Signed, but the signature does not verify: tampered, expired, or an untrusted root.
    Invalid { reason: String },
    /// The check could not be run. Never treat this as either outcome.
    Unknown { reason: String },
}

pub enum TrustV {
    Signed(Seq<char>),
    Unsigned,
    Invalid(Seq<char>),
    Unknown(Seq<char>),
}

impl Trust {
    pub open spec fn view(self) -> TrustV {
        match self {
            Trust::Signed { signer } => TrustV::Signed(signer@),
            Trust::Unsigned => TrustV::Unsigned,
            Trust::Invalid { reason } => TrustV::Invalid(reason@),
            Trust::Unknown { reason } => TrustV::Unknown(reason@),
        }
    }

    /// Whether this is a signature worth launching on. Only a good one counts: an unverifiable
    /// result must not read as success, because "could not check" is exactly the state an
    /// attacker would like the check to end in.
    pub fn is_trusted(&self) -> (r: bool)
        ensures
            r == (self@ is Signed),
    {
        match self {
            Trust::Signed { .. } => true,
            _ => false,
        }
    }

    /// One line for the consent dialog's Publisher row.
    pub fn describe(&self) -> (r: String)
        ensures
            r@ == match self@ {
                TrustV::Signed(s) => s,
                TrustV::Unsigned => "unsigned"@,
                TrustV::Invalid(reason) => "INVALID SIGNATURE — "@ + reason,
                TrustV::Unknown(reason) => "could not be checked — "@ + reason,
            },
    {
        match self {
            Trust::Signed { signer } => signer.clone(),
            Trust::Unsigned => {
                proof {
                    reveal_strlit("unsigned");
                }
                owned("unsigned")
            },
            Trust::Invalid { reason } => {
                proof {
                    reveal_strlit("INVALID SIGNATURE — ");
                }
                crate::text::concat("INVALID SIGNATURE — ", reason.as_str())
            },
            Trust::Unknown { reason } => {
                proof {
                    reveal_strlit("could not be checked — ");
                }
                crate::text::concat("could not be checked — ", reason.as_str())
            },
        }
    }
}

/// `WinVerifyTrust` succeeded.
pub const TRUST_OK: i32 = 0;
/// `TRUST_E_NOSIGNATURE`.
pub const TRUST_E_NOSIGNATURE: i32 = 0x800B0100u32 as i32;
/// `TRUST_E_SUBJECT_FORM_UNKNOWN`.
pub const TRUST_E_SUBJECT_FORM_UNKNOWN: i32 = 0x800B0003u32 as i32;
/// `TRUST_E_PROVIDER_UNKNOWN`.
pub const TRUST_E_PROVIDER_UNKNOWN: i32 = 0x800B0001u32 as i32;
/// `TRUST_E_BAD_DIGEST`.
pub const TRUST_E_BAD_DIGEST: i32 = 0x80096010u32 as i32;
/// `TRUST_E_SUBJECT_NOT_TRUSTED`.
pub const TRUST_E_SUBJECT_NOT_TRUSTED: i32 = 0x800B0004u32 as i32;

/// Eight lowercase hexadecimal digits of `n`, most significant first.
pub open spec fn hex8(n: u32) -> Seq<char> {
    Seq::new(8, |i: int| hex_char(((n as nat) / pow16((7 - i) as nat)) % 16))
}

pub open spec fn pow16(k: nat) -> nat
    decreases k,
{
    if k == 0 {
        1
    } else {
        16 * pow16((k - 1) as nat)
    }
}

/// A status code as it is reported: `0x` and eight hexadecimal digits.
pub open spec fn status_text(n: u32) -> Seq<char> {
    "0x"@ + hex8(n)
}

proof fn lemma_pow16_step(k: nat)
    requires
        k > 0,
    ensures
        pow16(k) / 16 == pow16((k - 1) as nat),
        pow16(k) > 0,
    decreases k,
{
    if k > 1 {
        lemma_pow16_step((k - 1) as nat);
    }
    assert(pow16(k) == 16 * pow16((k - 1) as nat));
}

fn push_hex8(out: &mut Vec<char>, n: u32)
    ensures
        final(out)@ == old(out)@ + hex8(n),
{
    let ghost start = old(out)@;
    let mut i: u32 = 0;
    let mut p: u32 = 0x10000000;
    assert(pow16(7) == 0x10000000) by {
        reveal_with_fuel(pow16, 8);
    }
    while i < 8
        invariant
            i <= 8,
            i < 8 ==> p as nat == pow16((7 - i) as nat),
            out@ == start + hex8(n).take(i as int),
        decreases 8 - i,
    {
        proof {
            if i < 7 {
                lemma_pow16_step((7 - i) as nat);
            } else {
                assert(pow16(0) == 1);
            }
        }
        let digit = (n / p) % 16;
        assert(hex8(n)[i as int] == hex_char(digit as nat));
        out.push(crate::canonical::hex_digit(digit));
        assert(hex8(n).take(i + 1) =~= hex8(n).take(i as int).push(hex_char(digit as nat)));
        i = i + 1;
        p = p / 16;
    }
    assert(hex8(n).take(8) =~= hex8(n));
}

/// The outcome of `WinVerifyTrust` on a file: `status` is what it returned, `last_error` the
/// thread's last error after it, `signer` the leaf certificate's display name when it
/// succeeded and the name could be read.
pub open spec fn classify_spec(status: i32, last_error: u32, signer: Option<Seq<char>>) -> TrustV {
    if status == TRUST_OK {
        match signer {
            Some(s) => TrustV::Signed(s),
            None => TrustV::Unknown("signature verified but the signer could not be read"@),
        }
    } else if status == TRUST_E_NOSIGNATURE {
        if last_error == 0 || last_error == TRUST_E_NOSIGNATURE as u32 || last_error == TRUST_E_SUBJECT_FORM_UNKNOWN as u32
            || last_error == TRUST_E_PROVIDER_UNKNOWN as u32 {
            TrustV::Unsigned
        } else {
            TrustV::Invalid(status_text(last_error))
        }
    } else if status == TRUST_E_BAD_DIGEST {
        TrustV::Invalid("the file was modified after it was signed"@)
    } else if status == TRUST_E_SUBJECT_NOT_TRUSTED {
        TrustV::Invalid("the signing certificate is not trusted on this machine"@)
    } else {
        TrustV::Invalid(status_text(status as u32))
    }
}

fn status_string(n: u32) -> (r: String)
    ensures
        r@ == status_text(n),
{
    let mut out: Vec<char> = Vec::new();
    push_str(&mut out, "0x");
    push_hex8(&mut out, n);
    proof {
        reveal_strlit("0x");
    }
    string_from_chars(out.as_slice())
}

/// What `WinVerifyTrust`'s answer means. It reports "no signature" for both an unsigned file
/// and a malformed one; the thread's last error is what separates them.
pub fn classify(status: i32, last_error: u32, signer: Option<String>) -> (r: Trust)
    ensures
        r@ == classify_spec(status, last_error, crate::consent::opt_chars(signer)),
{
    if status == TRUST_OK {
        match signer {
            Some(s) => Trust::Signed { signer: s },
            None => {
                proof {
                    reveal_strlit("signature verified but the signer could not be read");
                }
                Trust::Unknown { reason: owned("signature verified but the signer could not be read") }
            },
        }
    } else if status == TRUST_E_NOSIGNATURE {
        if last_error == 0 || last_error == TRUST_E_NOSIGNATURE as u32 || last_error == TRUST_E_SUBJECT_FORM_UNKNOWN as u32
            || last_error == TRUST_E_PROVIDER_UNKNOWN as u32 {
            Trust::Unsigned
        } else {
            Trust::Invalid { reason: status_string(last_error) }
        }
    } else if status == TRUST_E_BAD_DIGEST {
        proof {
            reveal_strlit("the file was modified after it was signed");
        }
        Trust::Invalid { reason: owned("the file was modified after it was signed") }
    } else if status == TRUST_E_SUBJECT_NOT_TRUSTED {
        proof {
            reveal_strlit("the signing certificate is not trusted on this machine");
        }
        Trust::Invalid { reason: owned("the signing certificate is not trusted on this machine") }
    } else {
        Trust::Invalid { reason: status_string(status as u32) }
    }
}

/// Check the signature of the file at `path`. Only Windows has a check (`check` runs
/// `WinVerifyTrust` on the path it is given and reports its status, last error and signer);
/// elsewhere, and for a path that is not a file, the answer is that it could not be checked.
pub fn verify<F: Fn(&str) -> (i32, u32, Option<String>)>(p: Platform, path: &str, is_file: bool, check: &F) -> (r: Trust)
    requires
        check.requires((path,)),
    ensures
        p != Platform::Windows ==> r@ == TrustV::Unknown("no signature verification on this platform yet"@),
        p == Platform::Windows && !is_file ==> r@ == TrustV::Unknown(path@ + " is not a file"@),
        p == Platform::Windows && is_file ==> exists|report: (i32, u32, Option<String>)|
            check.ensures((path,), report) && r@ == classify_spec(report.0, report.1, crate::consent::opt_chars(report.2)),
{
    if p != Platform::Windows {
        proof {
            reveal_strlit("no signature verification on this platform yet");
        }
        return Trust::Unknown { reason: owned("no signature verification on this platform yet") };
    }
    if !is_file {
        proof {
            reveal_strlit(" is not a file");
        }
        return Trust::Unknown { reason: crate::text::concat(path, " is not a file") };
    }
    let report = check(path);
    let ghost seen = report;
    let (status, last_error, signer) = report;
    let r = classify(status, last_error, signer);
    assert(check.ensures((path,), seen));
    r
}

} // verus!

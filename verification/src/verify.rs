//! The `pre-receive` verifier: a git hook that gates pushes on a signature from
//! an authorized signer.
//!
//! While a repository has no member it is still in its open bootstrap window
//! and every push is allowed, so the first member can be pushed in. Once there
//! is any, a push must carry a signed-push certificate (`git push --signed`)
//! whose anti-replay nonce git accepted and whose signature verifies against a
//! member's key that is within its window and not revoked.

use vstd::prelude::*;

use crate::keyed::TextSet;
use crate::members::{
    allowed_signers, authorizes, honored, law_each_line_is_trusted, member_views, signers_file,
    signers_lines, without_revoked, Member, MemberView,
};
use crate::seqs::{first_where, kept, lemma_first_where_is};
use crate::text::{
    chars_of, find_chars, find_sub, halves, lemma_find_sub, lines, lines_of, opt_text, same,
    split_once, starts, strip_prefix, text_of, texts,
};

verus! {

/// What is to be done with a push before its certificate was read.
#[derive(Debug, PartialEq, Eq)]
pub enum Gate {
    /// Accept it.
    Accept,
    /// Refuse it, with the reason.
    Refuse(&'static str),
    /// Read the certificate from the object store, and verify it.
    Read(String),
}

/// Decides on a push from the members, the revoked ones included, and from what
/// git tells the hook of the push certificate: its object, and whether its
/// nonce was accepted.
pub fn pre_receive(
    members: &[Member],
    certificate: Option<String>,
    nonce_status: Option<&str>,
) -> (r: Gate)
    ensures
        if members@.len() == 0 {
            r is Accept
        } else if certificate is None || certificate->0@.len() == 0 {
            r matches Gate::Refuse(reason) && reason@
                == "this repository requires a signed push: rerun with `git push --signed`"@
        } else if nonce_status is None || nonce_status->0@ != "OK"@ {
            r matches Gate::Refuse(reason) && reason@
                == "push certificate nonce was missing or stale"@
        } else {
            r matches Gate::Read(oid) && oid@ == certificate->0@
        },
{
    if members.len() == 0 {
        return Gate::Accept;
    }
    let oid = match certificate {
        None => String::new(),
        Some(oid) => oid,
    };
    if oid.as_str().is_empty() {
        return Gate::Refuse(
            "this repository requires a signed push: rerun with `git push --signed`",
        );
    }
    let fresh = match nonce_status {
        None => false,
        Some(status) => same(status, "OK"),
    };
    if !fresh {
        return Gate::Refuse("push certificate nonce was missing or stale");
    }
    Gate::Read(oid)
}

/// What begins the signature in a certificate.
pub const MARKER: &'static str = "-----BEGIN SSH SIGNATURE-----";

/// What `ssh-keygen -Y verify` is run on.
#[derive(Debug, PartialEq, Eq)]
pub struct Verification {
    /// The allowed-signers file.
    pub allowed_signers: String,
    /// The identity to look for in it.
    pub principal: String,
    /// The text that was signed.
    pub payload: String,
    /// The signature.
    pub signature: String,
}

/// The pusher's email from a certificate's `pusher` line, where it has one.
pub open spec fn pusher_email(certificate: Seq<char>) -> Option<Seq<char>> {
    let all = lines_of(certificate);
    let i = first_where(all, |line: Seq<char>| starts(line, "pusher "@));
    if i < all.len() {
        match halves(all[i].skip("pusher "@.len() as int), '<') {
            None => None,
            Some((_, rest)) => match halves(rest, '>') {
                None => None,
                Some((email, _)) => Some(email),
            },
        }
    } else {
        None
    }
}

fn pusher_line(certificate: &str) -> (r: Option<String>)
    ensures
        ({
            let all = lines_of(certificate@);
            let i = first_where(all, |line: Seq<char>| starts(line, "pusher "@));
            opt_text(r) == if i < all.len() {
                Some(all[i].skip("pusher "@.len() as int))
            } else {
                None
            }
        }),
{
    let all = lines(certificate);
    let ghost seen = texts(all@);
    let ghost p = |line: Seq<char>| starts(line, "pusher "@);
    let mut i: usize = 0;
    while i < all.len()
        invariant
            i <= all@.len(),
            seen == texts(all@),
            seen == lines_of(certificate@),
            p == (|line: Seq<char>| starts(line, "pusher "@)),
            forall|j: int| 0 <= j < i ==> !p(#[trigger] seen[j]),
        decreases all@.len() - i,
    {
        proof {
            assert(seen[i as int] == all@[i as int]@);
        }
        if let Some(rest) = strip_prefix(all[i].as_str(), "pusher ") {
            proof {
                lemma_first_where_is(seen, p, i as int);
            }
            return Some(rest.to_owned());
        }
        i += 1;
    }
    proof {
        lemma_first_where_is(seen, p, i as int);
    }
    None
}

/// The pusher's email from the certificate's `pusher` line, used as the
/// `ssh-keygen` principal. The authorized set uses a wildcard principal, so any
/// non-empty identity matches; `git` is a harmless fallback.
pub fn signer_principal(certificate: &str) -> (r: String)
    ensures
        r@ == (match pusher_email(certificate@) {
            Some(email) => email,
            None => "git"@,
        }),
{
    if let Some(rest) = pusher_line(certificate) {
        if let Some((_, rest)) = split_once(rest.as_str(), '<') {
            if let Some((email, _)) = split_once(rest.as_str(), '>') {
                return email;
            }
        }
    }
    "git".to_owned()
}

/// Members with every revoked key taken away.
pub open spec fn trusted_members(members: Seq<Member>, revoked: Set<Seq<char>>) -> Seq<MemberView> {
    kept(member_views(members), |m: MemberView| honored(m, revoked))
}

/// Whether a file is the allowed-signers file of the members with every revoked
/// key taken away.
pub open spec fn honors(file: Seq<char>, members: Seq<Member>, revoked: Set<Seq<char>>) -> bool {
    file == signers_file(trusted_members(members, revoked))
}

/// Splits a certificate into its signed payload and SSH signature, and says
/// what they are to be verified against: the members' keys, the revoked ones
/// subtracted.
pub fn verify_certificate(members: Vec<Member>, revoked: &TextSet, certificate: &str) -> (r: Result<
    Verification,
    &'static str,
>)
    ensures
        match find_sub(certificate@, MARKER@) {
            None => r matches Err(reason) && reason@
                == "push certificate carries no SSH signature"@,
            Some(at) => r matches Ok(v) && v.payload@ == certificate@.take(at) && v.signature@
                == certificate@.skip(at) && v.principal@ == (match pusher_email(certificate@) {
                Some(email) => email,
                None => "git"@,
            }) && honors(
                v.allowed_signers@,
                members@,
                revoked@,
            ),
        },
{
    let chars = chars_of(certificate);
    let marker = chars_of(MARKER);
    proof {
        assert(chars@.skip(0) =~= chars@);
    }
    match find_chars(chars.as_slice(), 0, marker.as_slice()) {
        None => Err("push certificate carries no SSH signature"),
        Some(at) => {
            let payload = text_of(chars.as_slice(), 0, at);
            let signature = text_of(chars.as_slice(), at, chars.len());
            proof {
                assert(payload@ =~= certificate@.take(at as int));
                assert(signature@ =~= certificate@.skip(at as int));
            }
            let trusted = without_revoked(members, revoked);
            Ok(
                Verification {
                    allowed_signers: allowed_signers(trusted.as_slice()),
                    principal: signer_principal(certificate),
                    payload,
                    signature,
                },
            )
        },
    }
}

/// What a push comes to once `ssh-keygen` has had its say.
pub fn verdict(trusted: bool) -> (r: Result<(), &'static str>)
    ensures
        match r {
            Ok(_) => trusted,
            Err(reason) => !trusted && reason@ == "push is not signed by an authorized key"@,
        },
{
    if trusted {
        Ok(())
    } else {
        Err("push is not signed by an authorized key")
    }
}

/// Law: the members and what is revoked settle the allowed-signers file, down to
/// the order of its lines.
pub proof fn law_one_file_is_honored(
    a: Seq<char>,
    b: Seq<char>,
    members: Seq<Member>,
    revoked: Set<Seq<char>>,
)
    requires
        honors(a, members, revoked),
        honors(b, members, revoked),
    ensures
        a == b,
{
}

/// Law: an honored file is made of lines, each of them the line of a member's
/// key under a fingerprint that is not revoked, or of a pinned authority.
pub proof fn law_honored_lines_are_trusted(
    file: Seq<char>,
    members: Seq<Member>,
    revoked: Set<Seq<char>>,
)
    requires
        honors(file, members, revoked),
    ensures
        file == signers_lines(trusted_members(members, revoked)).flatten(),
        forall|k: int|
            0 <= k < signers_lines(trusted_members(members, revoked)).len() ==> exists|i: int|
                0 <= i < members.len() && authorizes(
                    #[trigger] signers_lines(trusted_members(members, revoked))[k],
                    (#[trigger] members[i])@,
                    revoked,
                ),
{
    let lines = signers_lines(trusted_members(members, revoked));
    let views = member_views(members);
    assert forall|k: int| 0 <= k < lines.len() implies exists|i: int|
        0 <= i < members.len() && authorizes(
            #[trigger] lines[k],
            (#[trigger] members[i])@,
            revoked,
        ) by {
        law_each_line_is_trusted(views, revoked, k);
        let i = choose|i: int|
            0 <= i < views.len() && authorizes(lines[k], #[trigger] views[i], revoked);
        assert(views[i] == members[i]@);
    }
}

/// The two parts of a certificate are all of it, and the signature is the part
/// that begins with the marker.
pub proof fn law_certificate_splits_in_two(certificate: Seq<char>)
    requires
        find_sub(certificate, MARKER@) is Some,
    ensures
        ({
            let at = find_sub(certificate, MARKER@)->0;
            certificate.take(at) + certificate.skip(at) == certificate && starts(
                certificate.skip(at),
                MARKER@,
            )
        }),
{
    let at = find_sub(certificate, MARKER@)->0;
    lemma_find_sub(certificate, MARKER@);
    assert(certificate.take(at) + certificate.skip(at) =~= certificate);
}

/// Law: the signature of a certificate begins at the first line that says so, so
/// what is verified is all that stands before it.
pub proof fn law_payload_ends_where_the_signature_begins(payload: Seq<char>, signature: Seq<char>)
    requires
        starts(signature, "-----BEGIN SSH SIGNATURE-----"@),
        forall|i: int|
            0 <= i < payload.len() ==> !#[trigger] starts(
                (payload + signature).skip(i),
                "-----BEGIN SSH SIGNATURE-----"@,
            ),
    ensures
        find_sub(payload + signature, MARKER@) == Some(payload.len() as int),
{
    let all = payload + signature;
    let n = payload.len() as int;
    assert(all.skip(n) =~= signature);
    assert(starts(all.skip(n), MARKER@));
    lemma_find_sub(all, MARKER@);
    assert(crate::text::holds(all, MARKER@));
    let at = find_sub(all, MARKER@)->0;
    if at < n {
        assert(!starts(all.skip(at), MARKER@));
    }
}

/// Law: who pushed is who the certificate's first `pusher` line names, by their
/// address.
pub proof fn law_pusher_is_read(
    before: Seq<Seq<char>>,
    name: Seq<char>,
    email: Seq<char>,
    stamp: Seq<char>,
    rest: Seq<char>,
)
    requires
        forall|i: int|
            0 <= i < before.len() ==> !(#[trigger] before[i]).contains('\n') && (before[i].len()
                == 0 || before[i].last() != '\r') && !starts(before[i], "pusher "@),
        !name.contains('<'),
        !name.contains('\n'),
        !email.contains('>'),
        !email.contains('\n'),
        !stamp.contains('\n'),
        stamp.len() == 0 || stamp.last() != '\r',
    ensures
        pusher_email(
            before.map_values(|line: Seq<char>| line.push('\n')).flatten() + "pusher "@ + name
                + "<"@ + email + ">"@ + stamp + "\n"@ + rest,
        ) == Some(email),
{
    let line = "pusher "@ + name + "<"@ + email + ">"@ + stamp;
    let head = before.map_values(|line: Seq<char>| line.push('\n')).flatten();
    let text = head + "pusher "@ + name + "<"@ + email + ">"@ + stamp + "\n"@ + rest;
    reveal_strlit("pusher ");
    reveal_strlit("<");
    reveal_strlit(">");
    reveal_strlit("\n");
    assert forall|j: int| 0 <= j < line.len() implies line[j] != '\n' by {
        let a = 7 + name.len();
        let b = a + 1 + email.len();
        if 7 <= j < a {
            assert(line[j] == name[j - 7]);
            assert(name.contains(name[j - 7]));
        } else if a < j < b {
            assert(line[j] == email[j - a - 1]);
            assert(email.contains(email[j - a - 1]));
        } else if j > b {
            assert(line[j] == stamp[j - b - 1]);
            assert(stamp.contains(stamp[j - b - 1]));
        }
    }
    assert(line.last() != '\r') by {
        if stamp.len() > 0 {
            assert(line.last() == stamp.last());
        } else {
            assert(line.last() == '>');
        }
    }
    crate::text::lemma_lines_front(line, rest);
    assert(text =~= head + (line + seq!['\n'] + rest));
    crate::text::lemma_lines_after(before, line + seq!['\n'] + rest);
    let all = lines_of(text);
    assert(all =~= before + (seq![line] + lines_of(rest)));
    let p = |line: Seq<char>| starts(line, "pusher "@);
    let n = before.len() as int;
    assert forall|j: int| 0 <= j < n implies !p(#[trigger] all[j]) by {
        assert(all[j] == before[j]);
    }
    assert(all[n] == line);
    assert(line.take(7) =~= "pusher "@);
    lemma_first_where_is(all, p, n);
    let after = line.skip(7);
    assert(after =~= name + seq!['<'] + (email + seq!['>'] + stamp));
    assert forall|j: int| 0 <= j < name.len() implies after[j] != '<' by {
        assert(after[j] == name[j]);
        assert(name.contains(name[j]));
    }
    crate::text::lemma_index_of_is(after, '<', name.len() as int);
    let second = email + seq!['>'] + stamp;
    assert(after.skip(1 + name.len() as int) =~= second);
    assert forall|j: int| 0 <= j < email.len() implies second[j] != '>' by {
        assert(second[j] == email[j]);
        assert(email.contains(email[j]));
    }
    crate::text::lemma_index_of_is(second, '>', email.len() as int);
    assert(second.take(email.len() as int) =~= email);
}

} // verus!

use vstd::prelude::*;
use vstd::utf8::*;

use crate::crypto::{
    aes256gcm_decrypt, aes256gcm_encrypt, aes256gcm_open, aes256gcm_seal, aes_gcm_p_max,
    b64_decode, b64_encode, base64_decode, base64_encode, is_b64_char, random_bytes,
    string_from_utf8, utf8_error_text,
};
use crate::places::{home_dir, path_under_home, under_home, view_opt_bytes, view_result_path, view_result_string};
use crate::storage::BridgeRequest;
use crate::text::{
    decimal, decimal_text, lemma_split_on_append, lemma_split_on_no_sep,
    chars_of, copy_range, has_prefix, join, join_from, lines_chars, lines_of, split_on,
    starts_with_chars, chars_eq, string_from_chars, strip_cr, views,
};

verus! {

/// The first line of every locked note.
pub const LOCKED_HEADER: &'static str = "---stik-locked---";

/// The prefix of the second line of a locked note.
pub const NONCE_PREFIX: &'static str = "nonce: ";

/// The locked file format: the header, a line with the base64 nonce, and
/// the base64 ciphertext.
pub open spec fn locked_text(nonce_text: Seq<char>, ciphertext_text: Seq<char>) -> Seq<char> {
    LOCKED_HEADER@ + "\n"@ + NONCE_PREFIX@ + nonce_text + "\n"@ + ciphertext_text
}

/// Every character is one of the base64 alphabet or `=`.
pub open spec fn is_b64_text(t: Seq<char>) -> bool {
    forall|i: int| 0 <= i < t.len() ==> is_b64_char(#[trigger] t[i])
}

/// `content` is what encrypting `plaintext` under `key` with the 12-byte
/// nonce `nonce` produced.
pub open spec fn sealed_with(content: Seq<char>, key: Seq<u8>, plaintext: Seq<char>, nonce: Seq<u8>) -> bool {
    let ct = aes256gcm_seal(key, nonce, encode_utf8(plaintext));
    &&& nonce.len() == 12
    &&& encode_utf8(plaintext).len() <= aes_gcm_p_max()
    &&& content == locked_text(b64_encode(nonce), b64_encode(ct))
    &&& is_b64_text(b64_encode(nonce))
    &&& is_b64_text(b64_encode(ct))
    &&& b64_encode(nonce).len() > 0
    &&& b64_encode(ct).len() > 0
}

/// `content` is what encrypting `plaintext` under `key` produced, for some nonce.
pub open spec fn sealed_form(content: Seq<char>, key: Seq<u8>, plaintext: Seq<char>) -> bool {
    exists|nonce: Seq<u8>| #[trigger] sealed_with(content, key, plaintext, nonce)
}

/// What decrypting the locked note `content` under `key` gives before the
/// UTF-8 check: the plaintext bytes, or the error message.
pub open spec fn decrypt_outcome(content: Seq<char>, key: Seq<u8>) -> Result<Seq<u8>, Seq<char>> {
    let ls = lines_of(content);
    if ls.len() < 3 || ls[0] != LOCKED_HEADER@ {
        Err("Not a valid locked note"@)
    } else if !has_prefix(ls[1], NONCE_PREFIX@) {
        Err("Missing nonce line"@)
    } else {
        match b64_decode(ls[1].skip(NONCE_PREFIX@.len() as int)) {
            Err(e) => Err("Invalid nonce: "@ + e),
            Ok(nonce) => if nonce.len() != 12 {
                Err("Invalid nonce length"@)
            } else {
                match b64_decode(join(ls.skip(2), seq![])) {
                    Err(e) => Err("Invalid ciphertext: "@ + e),
                    Ok(ct) => match aes256gcm_open(key, nonce, ct) {
                        None => Err("Decryption failed \u{2014} wrong key or corrupted data"@),
                        Some(p) => Ok(p),
                    },
                }
            },
        }
    }
}

/// What decrypting the locked note `content` under `key` gives: the
/// plaintext, or the error message.
pub open spec fn decrypted_text(content: Seq<char>, key: Seq<u8>) -> Result<Seq<char>, Seq<char>> {
    match decrypt_outcome(content, key) {
        Err(m) => Err(m),
        Ok(b) => if valid_utf8(b) {
            Ok(decode_utf8(b))
        } else {
            Err("Decrypted content is not valid UTF-8: "@ + utf8_error_text(b))
        },
    }
}

// ── Lemmas on the format ────────────────────────────────────────

/// The lines of a locked note are its header, its nonce line and its
/// ciphertext line.
proof fn lemma_locked_text_lines(nt: Seq<char>, ct: Seq<char>)
    requires
        is_b64_text(nt),
        is_b64_text(ct),
        nt.len() > 0,
        ct.len() > 0,
    ensures
        lines_of(locked_text(nt, ct)) == seq![LOCKED_HEADER@, NONCE_PREFIX@ + nt, ct],
{
    reveal_strlit("---stik-locked---");
    reveal_strlit("nonce: ");
    reveal_strlit("\n");
    let h = LOCKED_HEADER@;
    let n = NONCE_PREFIX@ + nt;
    assert forall|i: int| 0 <= i < n.len() implies n[i] != '\n' by {
        if i >= NONCE_PREFIX@.len() {
            assert(is_b64_char(nt[i - NONCE_PREFIX@.len()]));
        }
    }
    assert forall|i: int| 0 <= i < ct.len() implies ct[i] != '\n' by {
        assert(is_b64_char(ct[i]));
    }
    lemma_split_on_no_sep(h, '\n');
    lemma_split_on_append(h, '\n', n);
    lemma_split_on_append(h + seq!['\n'] + n, '\n', ct);
    assert(locked_text(nt, ct) =~= (h + seq!['\n'] + n) + seq!['\n'] + ct);
    let p = split_on(locked_text(nt, ct), '\n');
    assert(p =~= seq![h, n, ct]);
    assert(is_b64_char(ct.last()));
    assert(is_b64_char(nt.last()));
    assert(n.last() == nt.last());
    assert(strip_cr(h) == h);
    assert(strip_cr(n) == n);
    let body = Seq::new((p.len() - 1) as nat, |k: int| strip_cr(p[k]));
    assert(body.push(p.last()) =~= seq![h, n, ct]);
}

/// The parts that a sealed note is made of.
proof fn lemma_sealed_parts(content: Seq<char>, key: Seq<u8>, p: Seq<char>) -> (nonce: Seq<u8>)
    requires
        sealed_form(content, key, p),
    ensures
        sealed_with(content, key, p, nonce),
        lines_of(content) == seq![
            LOCKED_HEADER@,
            NONCE_PREFIX@ + b64_encode(nonce),
            b64_encode(aes256gcm_seal(key, nonce, encode_utf8(p))),
        ],
        (NONCE_PREFIX@ + b64_encode(nonce)).skip(NONCE_PREFIX@.len() as int) == b64_encode(nonce),
        has_prefix(NONCE_PREFIX@ + b64_encode(nonce), NONCE_PREFIX@),
        lines_of(content).skip(2) == seq![b64_encode(aes256gcm_seal(key, nonce, encode_utf8(p)))],
        join(lines_of(content).skip(2), seq![]) == b64_encode(aes256gcm_seal(key, nonce, encode_utf8(p))),
{
    let nonce = choose|nonce: Seq<u8>| #[trigger] sealed_with(content, key, p, nonce);
    let ct = b64_encode(aes256gcm_seal(key, nonce, encode_utf8(p)));
    lemma_locked_text_lines(b64_encode(nonce), ct);
    let n = NONCE_PREFIX@ + b64_encode(nonce);
    assert(n.skip(NONCE_PREFIX@.len() as int) =~= b64_encode(nonce));
    assert(n.take(NONCE_PREFIX@.len() as int) =~= NONCE_PREFIX@);
    assert(lines_of(content).skip(2) =~= seq![ct]);
    nonce
}

// ── Format and crypto ───────────────────────────────────────────

/// Check if file content represents a locked note.
pub fn is_locked_content(content: &str) -> (res: bool)
    ensures
        res == has_prefix(content@, LOCKED_HEADER@),
{
    let c = chars_of(content);
    let h = chars_of(LOCKED_HEADER);
    starts_with_chars(c.as_slice(), h.as_slice())
}

/// Encrypt plaintext into the locked file format with the given nonce.
pub fn encrypt_with_nonce(plaintext: &str, key: &[u8; 32], nonce: &[u8; 12]) -> (res: Result<String, String>)
    requires
        encode_utf8(plaintext@).len() + 16 <= isize::MAX,
    ensures
        res is Ok <==> encode_utf8(plaintext@).len() <= aes_gcm_p_max(),
        res matches Ok(s) ==> s@ == locked_text(
            b64_encode(nonce@),
            b64_encode(aes256gcm_seal(key@, nonce@, encode_utf8(plaintext@))),
        ),
        res matches Ok(s) ==> sealed_with(s@, key@, plaintext@, nonce@),
        res matches Err(e) ==> e@ == "Encryption failed: aead::Error"@,
{
    let bytes = plaintext.as_bytes();
    let ciphertext = match aes256gcm_encrypt(key, nonce, bytes) {
        Ok(c) => c,
        Err(e) => {
            let mut msg = String::from_str("Encryption failed: ");
            msg.append(e.as_str());
            proof {
                reveal_strlit("Encryption failed: ");
                reveal_strlit("aead::Error");
                reveal_strlit("Encryption failed: aead::Error");
                assert(msg@ =~= "Encryption failed: aead::Error"@);
            }
            return Err(msg);
        },
    };
    let nonce_text = base64_encode(nonce);
    let ct_text = base64_encode(ciphertext.as_slice());
    let mut out = String::from_str(LOCKED_HEADER);
    out.append("\n");
    out.append(NONCE_PREFIX);
    out.append(nonce_text.as_str());
    out.append("\n");
    out.append(ct_text.as_str());
    assert(out@ =~= locked_text(nonce_text@, ct_text@));
    Ok(out)
}

/// Encrypt plaintext into the locked file format, under a fresh random nonce.
pub fn encrypt(plaintext: &str, key: &[u8; 32]) -> (res: Result<String, String>)
    requires
        encode_utf8(plaintext@).len() + 16 <= isize::MAX,
    ensures
        res is Ok <==> encode_utf8(plaintext@).len() <= aes_gcm_p_max(),
        res matches Ok(s) ==> sealed_form(s@, key@, plaintext@),
        res matches Err(e) ==> e@ == "Encryption failed: aead::Error"@,
{
    let nonce = random_bytes::<12>();
    let res = encrypt_with_nonce(plaintext, key, &nonce);
    assert(res matches Ok(s) ==> sealed_with(s@, key@, plaintext@, nonce@));
    res
}

/// An error result with the given message.
fn fail(msg: &str) -> (res: Result<String, String>)
    ensures
        res matches Err(e) && e@ == msg@,
{
    Err(String::from_str(msg))
}

/// An error result with the given prefix and detail.
fn fail_with(prefix: &str, detail: &str) -> (res: Result<String, String>)
    ensures
        res matches Err(e) && e@ == prefix@ + detail@,
{
    let mut m = String::from_str(prefix);
    m.append(detail);
    Err(m)
}

/// Decrypt the locked file format back to plaintext.
pub fn decrypt(locked_content: &str, key: &[u8; 32]) -> (res: Result<String, String>)
    ensures
        view_result_string(res) == decrypted_text(locked_content@, key@),
        forall|p: Seq<char>| #[trigger] sealed_form(locked_content@, key@, p)
            ==> (res is Ok && res.unwrap()@ == p),
{
    let ghost content = locked_content@;
    let ghost outcome = decrypt_outcome(content, key@);
    let ghost sealed = exists|p: Seq<char>| #[trigger] sealed_form(content, key@, p);
    let chars = chars_of(locked_content);
    let lines = lines_chars(chars.as_slice());
    let ghost ls = lines_of(content);
    assert(views(lines@) == ls);
    let header = chars_of(LOCKED_HEADER);
    assert(lines@.len() > 0 ==> views(lines@)[0] == lines@[0]@);
    if lines.len() < 3 || !chars_eq(lines[0].as_slice(), header.as_slice()) {
        assert(outcome == Err::<Seq<u8>, Seq<char>>("Not a valid locked note"@));
        proof {
            if sealed {
                let p = choose|p: Seq<char>| #[trigger] sealed_form(content, key@, p);
                lemma_sealed_parts(content, key@, p);
                assert(views(lines@)[0] == lines@[0]@);
            }
        }
        return fail("Not a valid locked note");
    }
    assert(views(lines@)[0] == lines@[0]@);
    assert(views(lines@)[1] == lines@[1]@);
    let prefix = chars_of(NONCE_PREFIX);
    if !starts_with_chars(lines[1].as_slice(), prefix.as_slice()) {
        proof {
            if sealed {
                let p = choose|p: Seq<char>| #[trigger] sealed_form(content, key@, p);
                lemma_sealed_parts(content, key@, p);
            }
        }
        assert(outcome == Err::<Seq<u8>, Seq<char>>("Missing nonce line"@));
        return fail("Missing nonce line");
    }
    let nonce_chars = copy_range(lines[1].as_slice(), prefix.len(), lines[1].len());
    let nonce_text = string_from_chars(nonce_chars.as_slice());
    assert(nonce_text@ == ls[1].skip(NONCE_PREFIX@.len() as int));
    let nonce_bytes = match base64_decode(nonce_text.as_str()) {
        Ok(v) => v,
        Err(e) => {
            proof {
                if sealed {
                    let p = choose|p: Seq<char>| #[trigger] sealed_form(content, key@, p);
                    let n = lemma_sealed_parts(content, key@, p);
                    assert(nonce_text@ == b64_encode(n));
                }
            }
            assert(outcome == Err::<Seq<u8>, Seq<char>>("Invalid nonce: "@ + e@));
            return fail_with("Invalid nonce: ", e.as_str());
        },
    };
    if nonce_bytes.len() != 12 {
        proof {
            if sealed {
                let p = choose|p: Seq<char>| #[trigger] sealed_form(content, key@, p);
                let n = lemma_sealed_parts(content, key@, p);
                assert(nonce_text@ == b64_encode(n));
            }
        }
        assert(outcome == Err::<Seq<u8>, Seq<char>>("Invalid nonce length"@));
        return fail("Invalid nonce length");
    }
    let no_sep: Vec<char> = Vec::new();
    let ct_chars = join_from(lines.as_slice(), 2, no_sep.as_slice());
    assert(no_sep@ =~= Seq::<char>::empty());
    assert(ct_chars@ == join(ls.skip(2), seq![]));
    let ct_text = string_from_chars(ct_chars.as_slice());
    let ciphertext = match base64_decode(ct_text.as_str()) {
        Ok(v) => v,
        Err(e) => {
            proof {
                if sealed {
                    let p = choose|p: Seq<char>| #[trigger] sealed_form(content, key@, p);
                    let n = lemma_sealed_parts(content, key@, p);
                    assert(ct_text@ == b64_encode(aes256gcm_seal(key@, n, encode_utf8(p))));
                }
            }
            assert(outcome == Err::<Seq<u8>, Seq<char>>("Invalid ciphertext: "@ + e@));
            return fail_with("Invalid ciphertext: ", e.as_str());
        },
    };
    let plain = match aes256gcm_decrypt(key, nonce_bytes.as_slice(), ciphertext.as_slice()) {
        Some(p) => p,
        None => {
            proof {
                if sealed {
                    let p = choose|p: Seq<char>| #[trigger] sealed_form(content, key@, p);
                    let n = lemma_sealed_parts(content, key@, p);
                    assert(nonce_text@ == b64_encode(n));
                    assert(ct_text@ == b64_encode(aes256gcm_seal(key@, n, encode_utf8(p))));
                }
            }
            assert(outcome == Err::<Seq<u8>, Seq<char>>("Decryption failed \u{2014} wrong key or corrupted data"@));
            return fail("Decryption failed \u{2014} wrong key or corrupted data");
        },
    };
    let ghost plain_bytes = plain@;
    assert(outcome == Ok::<Seq<u8>, Seq<char>>(plain_bytes));
    let result = match string_from_utf8(plain) {
        Ok(s) => Ok(s),
        Err(e) => fail_with("Decrypted content is not valid UTF-8: ", e.as_str()),
    };
    proof {
        assert forall|p: Seq<char>| #[trigger] sealed_form(content, key@, p)
            implies (result is Ok && result.unwrap()@ == p) by {
            let n = lemma_sealed_parts(content, key@, p);
            assert(nonce_text@ == b64_encode(n));
            assert(ct_text@ == b64_encode(aes256gcm_seal(key@, n, encode_utf8(p))));
            assert(plain_bytes == encode_utf8(p));
            encode_utf8_valid_utf8(p);
            encode_utf8_decode_utf8(p);
        }
    }
    result
}

/// What encrypting produces is recognised as a locked note.
pub proof fn law_encrypted_note_is_locked(content: Seq<char>, key: Seq<u8>, plaintext: Seq<char>)
    requires
        sealed_form(content, key, plaintext),
    ensures
        has_prefix(content, LOCKED_HEADER@),
{
    reveal_strlit("---stik-locked---");
    reveal_strlit("\n");
    let n = choose|n: Seq<u8>| #[trigger] sealed_with(content, key, plaintext, n);
    let l = locked_text(b64_encode(n), b64_encode(aes256gcm_seal(key, n, encode_utf8(plaintext))));
    assert(l.take(LOCKED_HEADER@.len() as int) =~= LOCKED_HEADER@);
}

// ── Session state ───────────────────────────────────────────────

/// When the notes were last unlocked, in milliseconds of a monotonic clock;
/// `None` while locked.
pub struct NoteLockSession {
    pub unlocked_at_ms: Option<u64>,
}

/// The session is unlocked at `now_ms`: it was unlocked, and either the
/// timeout is 0 ("until quit") or less than `timeout_minutes` have passed
/// (a clock that went backwards counts as no time passed).
pub open spec fn session_unlocked(unlocked_at_ms: Option<u64>, now_ms: u64, timeout_minutes: u64) -> bool {
    match unlocked_at_ms {
        None => false,
        Some(at) => timeout_minutes == 0 || (if now_ms >= at { now_ms - at } else { 0 }) < timeout_minutes * 60_000,
    }
}

/// A timeout of `t` minutes (other than 0, "until quit") keeps a session
/// unlocked for exactly `t` minutes after it was unlocked, whatever `t` is:
/// unlocked until then (and at any earlier reading of the clock), locked
/// from then on.
pub proof fn law_timeout_lasts_the_set_minutes(at: u64, t: u64, now: u64)
    requires
        t > 0,
    ensures
        now < at + t * 60_000 ==> session_unlocked(Some(at), now, t),
        now >= at + t * 60_000 ==> !session_unlocked(Some(at), now, t),
{
}

impl NoteLockSession {
    /// A locked session.
    pub fn new() -> (res: Self)
        ensures
            res.unlocked_at_ms is None,
    {
        NoteLockSession { unlocked_at_ms: None }
    }
}

/// Whether the session is unlocked at `now_ms` under the given timeout.
pub fn is_session_unlocked(session: &NoteLockSession, now_ms: u64, timeout_minutes: u64) -> (res: bool)
    requires
        timeout_minutes <= u64::MAX / 60,
    ensures
        res == session_unlocked(session.unlocked_at_ms, now_ms, timeout_minutes),
{
    match session.unlocked_at_ms {
        Some(unlocked_at) => {
            if timeout_minutes == 0 {
                true
            } else {
                let elapsed = if now_ms >= unlocked_at { now_ms - unlocked_at } else { 0 };
                (elapsed as u128) < (timeout_minutes as u128) * 60_000
            }
        },
        None => false,
    }
}

/// Mark the session unlocked as of `now_ms`.
pub fn unlock_session(session: &mut NoteLockSession, now_ms: u64)
    ensures
        final(session).unlocked_at_ms == Some(now_ms),
{
    session.unlocked_at_ms = Some(now_ms);
}

/// Lock the session.
pub fn lock_session_inner(session: &mut NoteLockSession)
    ensures
        final(session).unlocked_at_ms is None,
{
    session.unlocked_at_ms = None;
}

/// A session unlocked at some moment is unlocked at that moment, under any
/// timeout; a locked session is never unlocked.
pub proof fn law_unlock_then_unlocked(now_ms: u64, timeout_minutes: u64)
    ensures
        session_unlocked(Some(now_ms), now_ms, timeout_minutes),
        !session_unlocked(None, now_ms, timeout_minutes),
{
}

/// With the timeout 0 ("until quit") an unlocked session never expires.
pub proof fn law_until_quit_never_expires(at: u64, now_ms: u64)
    ensures
        session_unlocked(Some(at), now_ms, 0),
{
}

/// Once a session has timed out it stays timed out as the clock moves on,
/// and before it times out it is unlocked at every earlier moment too.
pub proof fn law_session_expiry_is_monotonic(at: u64, t1: u64, t2: u64, timeout_minutes: u64)
    requires
        t1 <= t2,
    ensures
        session_unlocked(Some(at), t2, timeout_minutes) ==> session_unlocked(Some(at), t1, timeout_minutes),
{
}

/// What `authenticate` does next.
pub enum AuthStep {
    /// The session is still unlocked: succeed without asking.
    AlreadyUnlocked,
    /// Ask the user (Touch ID or device password).
    Prompt,
}

/// Whether `authenticate` can succeed at once or must ask the user.
pub fn authentication_step(session: &NoteLockSession, now_ms: u64, timeout_minutes: u64) -> (res: AuthStep)
    requires
        timeout_minutes <= u64::MAX / 60,
    ensures
        res is AlreadyUnlocked <==> session_unlocked(session.unlocked_at_ms, now_ms, timeout_minutes),
{
    if is_session_unlocked(session, now_ms, timeout_minutes) {
        AuthStep::AlreadyUnlocked
    } else {
        AuthStep::Prompt
    }
}

/// Record the answer of the prompt: a success unlocks the session as of
/// `now_ms`, a refusal leaves it as it was. Returns the answer.
pub fn finish_authentication(session: &mut NoteLockSession, success: bool, now_ms: u64) -> (res: bool)
    ensures
        res == success,
        success ==> final(session).unlocked_at_ms == Some(now_ms),
        !success ==> final(session).unlocked_at_ms == old(session).unlocked_at_ms,
{
    if success {
        unlock_session(session, now_ms);
    }
    success
}

/// The check that guards the commands on locked notes.
pub fn require_authenticated(session: &NoteLockSession, now_ms: u64, timeout_minutes: u64) -> (res: Result<(), String>)
    requires
        timeout_minutes <= u64::MAX / 60,
    ensures
        res is Ok <==> session_unlocked(session.unlocked_at_ms, now_ms, timeout_minutes),
        res matches Err(e) ==> e@ == "Not authenticated"@,
{
    if is_session_unlocked(session, now_ms, timeout_minutes) {
        Ok(())
    } else {
        Err(String::from_str("Not authenticated"))
    }
}

// ── Settings ────────────────────────────────────────────────────

pub struct NoteLockSettings {
    pub enabled: bool,
    pub timeout_minutes: u64,
    pub lock_on_sleep: bool,
}

impl Default for NoteLockSettings {
    fn default() -> (res: Self)
        ensures
            !res.enabled,
            res.timeout_minutes == 15,
            res.lock_on_sleep,
    {
        NoteLockSettings { enabled: false, timeout_minutes: 15, lock_on_sleep: true }
    }
}

// ── Commands on note content ────────────────────────────────────

/// The check of `lock_note`: a note that is already locked is refused.
pub fn ensure_not_locked(content: &str) -> (res: Result<(), String>)
    ensures
        res is Ok <==> !has_prefix(content@, LOCKED_HEADER@),
        res matches Err(e) ==> e@ == "Note is already locked"@,
{
    if is_locked_content(content) {
        Err(String::from_str("Note is already locked"))
    } else {
        Ok(())
    }
}

/// What `unlock_note` writes back: `None` for a note that is not locked
/// (nothing to do), else its decrypted text.
pub fn unlock_note_content(content: &str, key: &[u8; 32]) -> (res: Result<Option<String>, String>)
    ensures
        !has_prefix(content@, LOCKED_HEADER@) ==> res matches Ok(None),
        has_prefix(content@, LOCKED_HEADER@) ==> match res {
            Ok(Some(s)) => decrypted_text(content@, key@) == Ok::<Seq<char>, Seq<char>>(s@),
            Ok(None) => false,
            Err(e) => decrypted_text(content@, key@) == Err::<Seq<char>, Seq<char>>(e@),
        },
        forall|p: Seq<char>| #[trigger] sealed_form(content@, key@, p)
            ==> (res matches Ok(Some(s)) && s@ == p),
{
    if !is_locked_content(content) {
        proof {
            assert forall|p: Seq<char>| #[trigger] sealed_form(content@, key@, p) implies false by {
                law_encrypted_note_is_locked(content@, key@, p);
            }
        }
        return Ok(None);
    }
    match decrypt(content, key) {
        Ok(s) => Ok(Some(s)),
        Err(e) => Err(e),
    }
}

/// The text that `read_locked_note` returns: a note that is not locked as
/// it is, a locked one decrypted.
pub fn read_locked_note_content(content: &str, key: &[u8; 32]) -> (res: Result<String, String>)
    ensures
        !has_prefix(content@, LOCKED_HEADER@) ==> (res matches Ok(s) && s@ == content@),
        has_prefix(content@, LOCKED_HEADER@) ==> view_result_string(res) == decrypted_text(content@, key@),
{
    if !is_locked_content(content) {
        return Ok(String::from_str(content));
    }
    decrypt(content, key)
}

/// The recovery key: the encryption key in base64, 44 characters that
/// decode back to the key.
pub fn recovery_key_text(key: &[u8; 32]) -> (res: String)
    ensures
        res@ == b64_encode(key@),
        res@.len() == 44,
        b64_decode(res@) is Ok && b64_decode(res@)->Ok_0 == key@,
{
    base64_encode(key)
}

// ── The key file ────────────────────────────────────────────────

/// Where the key file is: `.stik/note-key` in the home directory.
pub open spec fn key_path_of(home: Option<Seq<u8>>) -> Result<Seq<u8>, Seq<char>> {
    under_home(home, seq![".stik"@, "note-key"@])
}

/// The key file's path for the given home directory.
pub fn key_path_from(home: Option<Vec<u8>>) -> (res: Result<Vec<u8>, String>)
    ensures
        view_result_path(res) == key_path_of(view_opt_bytes(home)),
{
    path_under_home(home, ".stik", "note-key")
}

/// The key file's path for the user's home directory.
pub fn key_path() -> (res: Result<Vec<u8>, String>)
    ensures
        exists|home: Option<Seq<u8>>| view_result_path(res) == key_path_of(home),
{
    key_path_from(home_dir())
}

/// The key that the key file holds: its 32 bytes, or an error naming the
/// length that it has instead.
pub fn key_from_bytes(data: &[u8]) -> (res: Result<[u8; 32], String>)
    ensures
        data@.len() == 32 ==> (res matches Ok(k) && k@ == data@),
        data@.len() != 32 ==> (res matches Err(e) && e@ == "Key file has wrong length: "@ + decimal(
            data@.len(),
        ) + " (expected 32)"@),
{
    if data.len() != 32 {
        let mut m = String::from_str("Key file has wrong length: ");
        let n = decimal_text(data.len());
        m.append(n.as_str());
        m.append(" (expected 32)");
        return Err(m);
    }
    let mut key = [0u8; 32];
    let mut i: usize = 0;
    while i < 32
        invariant
            i <= 32,
            data@.len() == 32,
            forall|j: int| 0 <= j < i ==> #[trigger] key@[j] == data@[j],
        decreases 32 - i,
    {
        key[i] = data[i];
        i = i + 1;
    }
    assert(key@ =~= data@);
    Ok(key)
}

/// The key moved over from the store of an earlier release: the stored
/// bytes when there are exactly 32 of them, else none.
pub fn migrated_key(data: Option<Vec<u8>>) -> (res: Option<[u8; 32]>)
    ensures
        (data matches Some(d) && d@.len() == 32) ==> (res matches Some(k) && k@ == data->Some_0@),
        !(data matches Some(d) && d@.len() == 32) ==> res is None,
{
    match data {
        Some(d) => match key_from_bytes(d.as_slice()) {
            Ok(k) => Some(k),
            Err(_) => None,
        },
        None => None,
    }
}

/// A new random key.
pub fn generate_key() -> (res: [u8; 32]) {
    random_bytes::<32>()
}

// ── Touch ID / device password ──────────────────────────────────

/// The bridge call that asks the user to authenticate, giving the reason.
pub fn auth_request(reason: &str) -> (res: BridgeRequest)
    ensures
        res.method@ == "auth.authenticate"@,
        res.params@.len() == 1,
        res.params@[0].0@ == "reason"@,
        res.params@[0].1@ == reason@,
{
    let params = vec![(String::from_str("reason"), String::from_str(reason))];
    BridgeRequest { method: String::from_str("auth.authenticate"), params }
}

/// The answer of the authentication prompt, from the `success` field of the
/// reply (`None` when missing or not a boolean).
pub fn auth_reply(success: Option<bool>) -> (res: Result<bool, String>)
    ensures
        success matches Some(b) ==> (res matches Ok(r) && r == b),
        success is None ==> (res matches Err(e) && e@ == "auth.authenticate returned unexpected response"@),
{
    match success {
        Some(b) => Ok(b),
        None => Err(String::from_str("auth.authenticate returned unexpected response")),
    }
}

/// The bridge call that asks whether authentication is possible.
pub fn auth_available_request() -> (res: BridgeRequest)
    ensures
        res.method@ == "auth.available"@,
        res.params@.len() == 0,
{
    BridgeRequest { method: String::from_str("auth.available"), params: Vec::new() }
}

/// Whether authentication is possible, from the `available` field of the
/// reply: false unless it is `true`.
pub fn auth_available_reply(available: Option<bool>) -> (res: bool)
    ensures
        res == (available == Some(true)),
{
    match available {
        Some(b) => b,
        None => false,
    }
}

} // verus!

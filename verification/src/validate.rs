//! Input validation for command-line arguments and configuration values.
//!
//! Each validator returns a human-readable message for a value that is certain
//! to cause failures.  Values that are merely questionable pass; what there is
//! to say about them comes as a list of warnings.

use crate::text::is_space;
use crate::text::{is_space_char, same_text};
use vstd::prelude::*;
use vstd::string::*;

verus! {

/// Characters that no address holds; they hint at a quoting mistake.
pub const INVALID_CHARS: [char; 12] = [
    ';', '|', '&', '$', '`', '(', ')', '{', '}', '<', '>', '!',
];

/// The texts of some string slices.
pub open spec fn slice_texts(v: Seq<&'static str>) -> Seq<Seq<char>> {
    v.map_values(|s: &'static str| s@)
}

/// The first of the given characters that occurs in a text.
pub open spec fn first_occurring(chars: Seq<char>, text: Seq<char>) -> Option<char>
    decreases chars.len(),
{
    if chars.len() == 0 {
        None
    } else if text.contains(chars[0]) {
        Some(chars[0])
    } else {
        first_occurring(chars.skip(1), text)
    }
}

/// Whether a text holds white space.
pub open spec fn has_space(text: Seq<char>) -> bool {
    exists|i: int| 0 <= i < text.len() && is_space(#[trigger] text[i])
}

/// What is wrong with a bind address, if anything: it is empty, holds white
/// space, or holds one of [`INVALID_CHARS`].
pub open spec fn bind_addr_error(addr: Seq<char>) -> Option<Seq<char>> {
    if addr.len() == 0 {
        Some("bind address must not be empty"@)
    } else if has_space(addr) {
        Some(
            "bind address '"@ + addr
                + "' contains whitespace; expected an IP address or hostname"@,
        )
    } else {
        match first_occurring(INVALID_CHARS@, addr) {
            Some(c) => Some(
                "bind address '"@ + addr + "' contains invalid character '"@ + seq![c] + "'"@,
            ),
            None => None,
        }
    }
}

/// Whether an address stands for all network interfaces.
pub open spec fn is_all_interfaces(addr: Seq<char>) -> bool {
    addr == "0.0.0.0"@ || addr == "::"@
}

/// What is wrong with a bind address, given whether the server may be reached
/// from the network.
pub open spec fn bind_error(addr: Seq<char>, expose_network: bool) -> Option<Seq<char>> {
    match bind_addr_error(addr) {
        Some(e) => Some(e),
        None => if is_all_interfaces(addr) && !expose_network {
            Some("binding to all interfaces is not allowed unless expose_network=true"@)
        } else {
            None
        },
    }
}

/// The message of a failed validation.
pub open spec fn error_text(r: Result<(), String>) -> Option<Seq<char>> {
    match r {
        Ok(()) => None,
        Err(e) => Some(e@),
    }
}

fn contains_char(text: &str, wanted: char) -> (r: bool)
    ensures
        r == text@.contains(wanted),
{
    let mut found: bool = false;
    for c in it: text.chars()
        invariant
            it.seq() == text@,
            found == it.seq().take(it.index() as int).contains(wanted),
    {
        proof {
            let done = text@.take(it.index() as int);
            let next = text@.take(it.index() as int + 1);
            assert(next =~= done.push(c));
            if done.contains(wanted) {
                let i = choose|i: int| 0 <= i < done.len() && done[i] == wanted;
                assert(next[i] == wanted);
            }
            if c == wanted {
                assert(next[it.index() as int] == wanted);
            }
        }
        if c == wanted {
            found = true;
        }
    }
    assert(text@.take(text@.len() as int) =~= text@);
    found
}

fn contains_space(text: &str) -> (r: bool)
    ensures
        r == has_space(text@),
{
    let mut found: bool = false;
    for c in it: text.chars()
        invariant
            it.seq() == text@,
            found == has_space(it.seq().take(it.index() as int)),
    {
        let space: bool = is_space_char(c);
        proof {
            let done = text@.take(it.index() as int);
            let next = text@.take(it.index() as int + 1);
            assert(next =~= done.push(c));
            if has_space(done) {
                let i = choose|i: int| 0 <= i < done.len() && is_space(#[trigger] done[i]);
                assert(is_space(next[i]));
            }
            if space {
                assert(is_space(next[it.index() as int]));
            }
            if has_space(next) && !space {
                let i = choose|i: int| 0 <= i < next.len() && is_space(#[trigger] next[i]);
                assert(is_space(done[i]));
            }
        }
        if space {
            found = true;
        }
    }
    assert(text@.take(text@.len() as int) =~= text@);
    found
}

/// Validates that the bind address is a plausible IP address or hostname.
///
/// This only checks the syntax.  An address is refused if it is empty or
/// contains white space or characters that are clearly invalid.  Binding to all
/// interfaces is allowed.
pub fn validate_bind_addr(addr: &str) -> (r: Result<(), String>)
    ensures
        error_text(r) == bind_addr_error(addr@),
{
    if addr.is_empty() {
        return Err("bind address must not be empty".to_owned());
    }
    if contains_space(addr) {
        let mut msg: String = "bind address '".to_owned();
        msg.append(addr);
        msg.append("' contains whitespace; expected an IP address or hostname");
        return Err(msg);
    }
    let invalid = INVALID_CHARS;
    let mut i: usize = 0;
    assert(invalid@.skip(0) =~= invalid@);
    while i < invalid.len()
        invariant
            i <= invalid@.len() == 12,
            invalid@ == INVALID_CHARS@,
            addr@.len() > 0,
            !has_space(addr@),
            first_occurring(invalid@, addr@) == first_occurring(invalid@.skip(i as int), addr@),
        decreases invalid@.len() - i,
    {
        let c: char = invalid[i];
        proof {
            assert(invalid@.skip(i as int)[0] == c);
            assert(invalid@.skip(i as int).skip(1) =~= invalid@.skip(i + 1));
        }
        if contains_char(addr, c) {
            let mut msg: String = "bind address '".to_owned();
            msg.append(addr);
            msg.append("' contains invalid character '");
            msg.push(c);
            msg.append("'");
            proof {
                assert(msg@ =~= "bind address '"@ + addr@ + "' contains invalid character '"@
                    + seq![c] + "'"@);
            }
            return Err(msg);
        }
        i = i + 1;
    }
    Ok(())
}

/// Validates the bind address, and refuses all interfaces unless the server may
/// be reached from the network.
pub fn validate_bind_exposure(addr: &str, expose_network: bool) -> (r: Result<(), String>)
    ensures
        error_text(r) == bind_error(addr@, expose_network),
{
    match validate_bind_addr(addr) {
        Err(e) => Err(e),
        Ok(()) => {
            if (same_text(addr, "0.0.0.0") || same_text(addr, "::")) && !expose_network {
                Err(
                    "binding to all interfaces is not allowed unless expose_network=true".to_owned(),
                )
            } else {
                Ok(())
            }
        },
    }
}

/// Warning for a server on all interfaces.
pub const WARN_ALL_INTERFACES: &'static str =
    "binding to all interfaces; the WebSocket and control servers will be accessible from other machines on the network. Use 127.0.0.1 to restrict to localhost only.";

/// Warning for port 0.
pub const WARN_PORT_ZERO: &'static str =
    "port 0 requests an OS-assigned ephemeral port; the control socket will bind to port 1, which is a reserved port and likely to fail";

/// Warning for a privileged port.
pub const WARN_PORT_PRIVILEGED: &'static str =
    "ports below 1024 are privileged on most systems and may require elevated permissions (sudo / administrator)";

/// Warning for the last port.
pub const WARN_PORT_LAST: &'static str =
    "port 65535 cannot be used because the control socket requires port + 1 (65536), which overflows u16";

/// Warning for a very short debounce delay.
pub const WARN_DEBOUNCE_SHORT: &'static str =
    "debounce delay below 50ms may cause redundant rebuilds from editors that emit multiple write events per save operation";

/// Warning for a very long debounce delay.
pub const WARN_DEBOUNCE_LONG: &'static str =
    "debounce delay above 10s will make the watcher feel very unresponsive; typical values are 100-500ms";

/// Warning for a timeout of no time.
pub const WARN_TIMEOUT_ZERO: &'static str =
    "command timeout of 0ms will kill commands immediately; this is almost certainly not what you want";

/// Warning for a very short timeout.
pub const WARN_TIMEOUT_SHORT: &'static str =
    "command timeout below 100ms is very aggressive and may kill commands before they can start";

/// Warning for a very long timeout.
pub const WARN_TIMEOUT_LONG: &'static str =
    "command timeout above 10 minutes; consider whether this build step could benefit from optimization";

/// Warning for a diff size limit without the diff store.
pub const WARN_DIFF_DISABLED: &'static str =
    "--diff-max-file-size has no effect without --diff; add --diff to enable the diff store";

/// Warning for a very small diff size limit.
pub const WARN_DIFF_TINY: &'static str =
    "diff max file size below 256 bytes will cause most source files to be recorded with placeholder diffs instead of real content";

/// A list with one text, or none.
pub open spec fn if_so(condition: bool, text: Seq<char>) -> Seq<Seq<char>> {
    if condition {
        seq![text]
    } else {
        Seq::empty()
    }
}

/// Adds a warning to a list under a condition.
fn warn_if(list: &mut Vec<&'static str>, condition: bool, text: &'static str)
    ensures
        slice_texts(final(list)@) == slice_texts(old(list)@) + if_so(condition, text@),
{
    if condition {
        list.push(text);
    }
    assert(slice_texts(list@) =~= slice_texts(old(list)@) + if_so(condition, text@));
}

/// A list without warnings.
fn no_warnings() -> (v: Vec<&'static str>)
    ensures
        slice_texts(v@) == Seq::<Seq<char>>::empty(),
{
    let v: Vec<&'static str> = Vec::new();
    assert(slice_texts(v@) =~= Seq::<Seq<char>>::empty());
    v
}

/// What there is to say about a delay in milliseconds: nothing, that it is very short or that
/// it is very long.
pub open spec fn delay_remarks(ms: u64) -> Seq<Seq<char>> {
    if_so(0 < ms < 50, WARN_DEBOUNCE_SHORT@) + if_so(ms > 10_000, WARN_DEBOUNCE_LONG@)
}

/// What there is to say about a timeout in milliseconds.
pub open spec fn timeout_remarks(ms: Option<u64>) -> Seq<Seq<char>> {
    match ms {
        Some(t) => if_so(t == 0, WARN_TIMEOUT_ZERO@) + if_so(0 < t < 100, WARN_TIMEOUT_SHORT@)
            + if_so(t > 600_000, WARN_TIMEOUT_LONG@),
        None => Seq::empty(),
    }
}

/// What there is to say about a port.
pub open spec fn port_remarks(port: u16) -> Seq<Seq<char>> {
    if_so(port == 0, WARN_PORT_ZERO@) + if_so(0 < port < 1024, WARN_PORT_PRIVILEGED@) + if_so(
        port == 65535,
        WARN_PORT_LAST@,
    )
}

/// What there is to say about the limit on the size of a file in the diff store.
pub open spec fn diff_remarks(enabled: bool, limit: usize) -> Seq<Seq<char>> {
    if enabled {
        if_so(limit < 256, WARN_DIFF_TINY@)
    } else {
        if_so(limit != 524_288, WARN_DIFF_DISABLED@)
    }
}

/// There is at most one thing to say about a setting, and exactly where the setting is
/// questionable.
pub proof fn law_questionable_settings_are_remarked_on(
    ms: u64,
    port: u16,
    enabled: bool,
    limit: usize,
)
    ensures
        0 < ms < 50 ==> delay_remarks(ms) == seq![WARN_DEBOUNCE_SHORT@],
        ms > 10_000 ==> delay_remarks(ms) == seq![WARN_DEBOUNCE_LONG@],
        ms == 0 || 50 <= ms <= 10_000 ==> delay_remarks(ms).len() == 0,
        ms == 0 ==> timeout_remarks(Some(ms)) == seq![WARN_TIMEOUT_ZERO@],
        0 < ms < 100 ==> timeout_remarks(Some(ms)) == seq![WARN_TIMEOUT_SHORT@],
        ms > 600_000 ==> timeout_remarks(Some(ms)) == seq![WARN_TIMEOUT_LONG@],
        100 <= ms <= 600_000 ==> timeout_remarks(Some(ms)).len() == 0,
        timeout_remarks(None).len() == 0,
        port == 0 ==> port_remarks(port) == seq![WARN_PORT_ZERO@],
        0 < port < 1024 ==> port_remarks(port) == seq![WARN_PORT_PRIVILEGED@],
        port == 65535 ==> port_remarks(port) == seq![WARN_PORT_LAST@],
        1024 <= port < 65535 ==> port_remarks(port).len() == 0,
        enabled && limit < 256 ==> diff_remarks(enabled, limit) == seq![WARN_DIFF_TINY@],
        !enabled && limit != 512 * 1024 ==> diff_remarks(enabled, limit) == seq![
            WARN_DIFF_DISABLED@,
        ],
        enabled && limit >= 256 || !enabled && limit == 512 * 1024 ==> diff_remarks(
            enabled,
            limit,
        ).len() == 0,
{
    assert(0 < ms < 50 ==> delay_remarks(ms) =~= seq![WARN_DEBOUNCE_SHORT@]);
    assert(ms > 10_000 ==> delay_remarks(ms) =~= seq![WARN_DEBOUNCE_LONG@]);
    assert(ms == 0 ==> timeout_remarks(Some(ms)) =~= seq![WARN_TIMEOUT_ZERO@]);
    assert(0 < ms < 100 ==> timeout_remarks(Some(ms)) =~= seq![WARN_TIMEOUT_SHORT@]);
    assert(ms > 600_000 ==> timeout_remarks(Some(ms)) =~= seq![WARN_TIMEOUT_LONG@]);
    assert(port == 0 ==> port_remarks(port) =~= seq![WARN_PORT_ZERO@]);
    assert(0 < port < 1024 ==> port_remarks(port) =~= seq![WARN_PORT_PRIVILEGED@]);
    assert(port == 65535 ==> port_remarks(port) =~= seq![WARN_PORT_LAST@]);
}

/// What there is to say about a bind address that was accepted.
pub fn bind_addr_warnings(addr: &str) -> (w: Vec<&'static str>)
    ensures
        slice_texts(w@) == if_so(is_all_interfaces(addr@), WARN_ALL_INTERFACES@),
{
    let mut w = no_warnings();
    let all: bool = same_text(addr, "0.0.0.0") || same_text(addr, "::");
    warn_if(&mut w, all, WARN_ALL_INTERFACES);
    assert(slice_texts(w@) =~= if_so(is_all_interfaces(addr@), WARN_ALL_INTERFACES@));
    w
}

/// What there is to say about a port whose successor the control socket needs:
/// port 0, privileged ports and the last port are questionable.
pub fn warn_port_issues(port: u16) -> (w: Vec<&'static str>)
    ensures
        slice_texts(w@) == port_remarks(port),
        slice_texts(w@) == if_so(port == 0, WARN_PORT_ZERO@) + if_so(
            0 < port < 1024,
            WARN_PORT_PRIVILEGED@,
        ) + if_so(port == 65535, WARN_PORT_LAST@),
{
    let mut w = no_warnings();
    warn_if(&mut w, port == 0, WARN_PORT_ZERO);
    warn_if(&mut w, port < 1024 && port > 0, WARN_PORT_PRIVILEGED);
    warn_if(&mut w, port == 65535, WARN_PORT_LAST);
    assert(slice_texts(w@) =~= if_so(port == 0, WARN_PORT_ZERO@) + if_so(
        0 < port < 1024,
        WARN_PORT_PRIVILEGED@,
    ) + if_so(port == 65535, WARN_PORT_LAST@));
    w
}

/// What is wrong with a debounce delay, if anything.
pub open spec fn debounce_error(ms: u64) -> Option<Seq<char>> {
    if ms == 0 {
        Some(
            "debounce delay of 0ms is not supported; the minimum effective value is 1ms. Use --debounce-ms 1 for the fastest response."@,
        )
    } else {
        None
    }
}

/// Validates the debounce delay: a delay of no time, which would disable
/// debouncing, is refused.
pub fn validate_debounce_ms(ms: u64) -> (r: Result<(), String>)
    ensures
        error_text(r) == debounce_error(ms),
{
    if ms == 0 {
        return Err(
            "debounce delay of 0ms is not supported; the minimum effective value is 1ms. Use --debounce-ms 1 for the fastest response.".to_owned(),
        );
    }
    Ok(())
}

/// What there is to say about a debounce delay that was accepted.
pub fn debounce_warnings(ms: u64) -> (w: Vec<&'static str>)
    ensures
        slice_texts(w@) == delay_remarks(ms),
        slice_texts(w@) == if_so(0 < ms < 50, WARN_DEBOUNCE_SHORT@) + if_so(
            ms > 10_000,
            WARN_DEBOUNCE_LONG@,
        ),
{
    let mut w = no_warnings();
    warn_if(&mut w, 0 < ms && ms < 50, WARN_DEBOUNCE_SHORT);
    warn_if(&mut w, ms > 10_000, WARN_DEBOUNCE_LONG);
    assert(slice_texts(w@) =~= if_so(0 < ms < 50, WARN_DEBOUNCE_SHORT@) + if_so(
        ms > 10_000,
        WARN_DEBOUNCE_LONG@,
    ));
    w
}

/// Validates the command timeout: any is accepted.
pub fn validate_cmd_timeout_ms(ms: Option<u64>) -> (r: Result<(), String>)
    ensures
        error_text(r) is None,
{
    Ok(())
}

/// What there is to say about a command timeout.
pub fn cmd_timeout_warnings(ms: Option<u64>) -> (w: Vec<&'static str>)
    ensures
        slice_texts(w@) == timeout_remarks(ms),
        slice_texts(w@) == if_so(ms == Some(0u64), WARN_TIMEOUT_ZERO@) + if_so(
            ms is Some && 0 < ms->0 < 100,
            WARN_TIMEOUT_SHORT@,
        ) + if_so(ms is Some && ms->0 > 600_000, WARN_TIMEOUT_LONG@),
{
    let mut w = no_warnings();
    match ms {
        Some(timeout) => {
            warn_if(&mut w, timeout == 0, WARN_TIMEOUT_ZERO);
            warn_if(&mut w, timeout > 0 && timeout < 100, WARN_TIMEOUT_SHORT);
            warn_if(&mut w, timeout > 600_000, WARN_TIMEOUT_LONG);
        },
        None => {},
    }
    assert(slice_texts(w@) =~= if_so(ms == Some(0u64), WARN_TIMEOUT_ZERO@) + if_so(
        ms is Some && 0 < ms->0 < 100,
        WARN_TIMEOUT_SHORT@,
    ) + if_so(ms is Some && ms->0 > 600_000, WARN_TIMEOUT_LONG@));
    w
}

/// What there is to say about the diff flags: a size limit has no effect without
/// the diff store, and a tiny one leaves little to diff.
pub fn validate_diff_flags(diff_enabled: bool, diff_max_file_size: usize) -> (w: Vec<
    &'static str,
>)
    ensures
        slice_texts(w@) == diff_remarks(diff_enabled, diff_max_file_size),
        slice_texts(w@) == if_so(
            !diff_enabled && diff_max_file_size != crate::kv::DEFAULT_MAX_FILE_SIZE,
            WARN_DIFF_DISABLED@,
        ) + if_so(diff_enabled && diff_max_file_size < 256, WARN_DIFF_TINY@),
{
    let mut w = no_warnings();
    warn_if(
        &mut w,
        !diff_enabled && diff_max_file_size != crate::kv::DEFAULT_MAX_FILE_SIZE,
        WARN_DIFF_DISABLED,
    );
    warn_if(&mut w, diff_enabled && diff_max_file_size < 256, WARN_DIFF_TINY);
    assert(slice_texts(w@) =~= if_so(
        !diff_enabled && diff_max_file_size != crate::kv::DEFAULT_MAX_FILE_SIZE,
        WARN_DIFF_DISABLED@,
    ) + if_so(diff_enabled && diff_max_file_size < 256, WARN_DIFF_TINY@));
    w
}

/// Validates that there is an authentication token.
pub fn validate_auth_token(token: &Option<String>) -> (r: Result<(), String>)
    ensures
        error_text(r) == if token is None {
            Some("auth_token is required for secure operation"@)
        } else {
            None
        },
{
    if token.is_none() {
        return Err("auth_token is required for secure operation".to_owned());
    }
    Ok(())
}

/// What is wrong with TLS settings that are meant to be used.
pub open spec fn tls_error(cert: Option<String>, key: Option<String>) -> Option<Seq<char>> {
    if cert is None || key is None {
        Some("TLS certificate and key are required for secure operation"@)
    } else {
        None
    }
}

/// Validates that there are both a TLS certificate and a key.
pub fn validate_tls(cert: &Option<String>, key: &Option<String>) -> (r: Result<(), String>)
    ensures
        error_text(r) == tls_error(*cert, *key),
{
    if cert.is_none() || key.is_none() {
        return Err("TLS certificate and key are required for secure operation".to_owned());
    }
    Ok(())
}

/// What is wrong with a limit on the number of connections.
pub open spec fn max_connections_error(max: Option<u32>) -> Option<Seq<char>> {
    if max == Some(0u32) {
        Some("max_connections must be greater than zero"@)
    } else {
        None
    }
}

/// Validates that a limit on the number of connections allows for one.
pub fn validate_max_connections(max: Option<u32>) -> (r: Result<(), String>)
    ensures
        error_text(r) == max_connections_error(max),
{
    match max {
        Some(m) => {
            if m == 0 {
                Err("max_connections must be greater than zero".to_owned())
            } else {
                Ok(())
            }
        },
        None => Ok(()),
    }
}

/// Whether a character is one that no address holds.
pub open spec fn is_invalid_char(c: char) -> bool {
    c == ';' || c == '|' || c == '&' || c == '$' || c == '`' || c == '(' || c == ')' || c == '{'
        || c == '}' || c == '<' || c == '>' || c == '!'
}

/// What the first of some characters that occurs in a text is.
proof fn lemma_first_occurring(chars: Seq<char>, text: Seq<char>)
    ensures
        match first_occurring(chars, text) {
            Some(c) => chars.contains(c) && text.contains(c),
            None => forall|i: int| 0 <= i < chars.len() ==> !text.contains(#[trigger] chars[i]),
        },
    decreases chars.len(),
{
    if chars.len() > 0 {
        let rest = chars.skip(1);
        lemma_first_occurring(rest, text);
        if text.contains(chars[0]) {
            assert(chars.contains(chars[0]));
        } else {
            match first_occurring(rest, text) {
                Some(c) => {
                    let i = choose|i: int| 0 <= i < rest.len() && rest[i] == c;
                    assert(chars[i + 1] == c);
                },
                None => {
                    assert forall|i: int| 0 <= i < chars.len() implies !text.contains(
                        #[trigger] chars[i],
                    ) by {
                        if i > 0 {
                            assert(rest[i - 1] == chars[i]);
                        }
                    }
                },
            }
        }
    }
}

/// The invalid characters are the listed ones.
proof fn lemma_invalid_chars(c: char)
    ensures
        INVALID_CHARS@.contains(c) <==> is_invalid_char(c),
{
    let list = INVALID_CHARS@;
    assert(list =~= seq![';', '|', '&', '$', '`', '(', ')', '{', '}', '<', '>', '!']);
    if is_invalid_char(c) {
        let i: int = if c == ';' {
            0
        } else if c == '|' {
            1
        } else if c == '&' {
            2
        } else if c == '$' {
            3
        } else if c == '`' {
            4
        } else if c == '(' {
            5
        } else if c == ')' {
            6
        } else if c == '{' {
            7
        } else if c == '}' {
            8
        } else if c == '<' {
            9
        } else if c == '>' {
            10
        } else {
            11
        };
        assert(list[i] == c);
    }
}

/// An address is refused exactly if it is empty or holds white space or one of the invalid
/// characters, and the message says which.
pub proof fn law_bind_address(addr: Seq<char>)
    ensures
        ({
            let e = bind_addr_error(addr);
            let spaced = exists|i: int| 0 <= i < addr.len() && is_space(#[trigger] addr[i]);
            let invalid = exists|i: int|
                0 <= i < addr.len() && is_invalid_char(#[trigger] addr[i]);
            &&& e is None <==> addr.len() > 0 && !spaced && !invalid
            &&& addr.len() == 0 ==> e == Some("bind address must not be empty"@)
            &&& spaced ==> e == Some(
                "bind address '"@ + addr
                    + "' contains whitespace; expected an IP address or hostname"@,
            )
            &&& invalid && !spaced ==> exists|c: char|
                #[trigger] is_invalid_char(c) && addr.contains(c) && e == Some(
                    "bind address '"@ + addr + "' contains invalid character '"@ + seq![c] + "'"@,
                )
        }),
{
    lemma_first_occurring(INVALID_CHARS@, addr);
    let found = first_occurring(INVALID_CHARS@, addr);
    if found is Some {
        lemma_invalid_chars(found->0);
        let i = choose|i: int| 0 <= i < addr.len() && addr[i] == found->0;
        assert(is_invalid_char(addr[i]));
    } else {
        assert forall|i: int| 0 <= i < addr.len() implies !is_invalid_char(#[trigger] addr[i]) by {
            lemma_invalid_chars(addr[i]);
            if is_invalid_char(addr[i]) {
                let list = INVALID_CHARS@;
                let k = choose|k: int| 0 <= k < list.len() && list[k] == addr[i];
                assert(addr.contains(list[k]));
            }
        }
    }
    if has_space(addr) {
        let i = choose|i: int| 0 <= i < addr.len() && is_space(#[trigger] addr[i]);
        assert(is_space(addr[i]));
    }
}

/// An acceptable address is refused only if it stands for all interfaces and the server must
/// not be reached from the network.
pub proof fn law_exposure_has_to_be_allowed(addr: Seq<char>, expose_network: bool)
    ensures
        bind_addr_error(addr) is Some ==> bind_error(addr, expose_network) == bind_addr_error(addr),
        bind_addr_error(addr) is None ==> (bind_error(addr, expose_network) is Some
            <==> !expose_network && (addr == "0.0.0.0"@ || addr == "::"@)),
        bind_addr_error(addr) is None && bind_error(addr, expose_network) is Some ==> bind_error(
            addr,
            expose_network,
        ) == Some("binding to all interfaces is not allowed unless expose_network=true"@),
{
}

/// A delay of no time and a limit of no connections are refused, and TLS needs both a
/// certificate and a key; nothing else is.
pub proof fn law_settings_that_cannot_work(
    ms: u64,
    max: Option<u32>,
    cert: Option<String>,
    key: Option<String>,
)
    ensures
        debounce_error(ms) is Some <==> ms == 0,
        ms == 0 ==> debounce_error(ms) == Some(
            "debounce delay of 0ms is not supported; the minimum effective value is 1ms. Use --debounce-ms 1 for the fastest response."@,
        ),
        max_connections_error(max) is Some <==> max is Some && max->0 == 0,
        max_connections_error(max) is Some ==> max_connections_error(max) == Some(
            "max_connections must be greater than zero"@,
        ),
        tls_error(cert, key) is None <==> cert is Some && key is Some,
        tls_error(cert, key) is Some ==> tls_error(cert, key) == Some(
            "TLS certificate and key are required for secure operation"@,
        ),
{
}

/// There is something to say exactly under its condition, and the message of a validation is
/// that of its failure.
pub proof fn law_messages_are_given_under_their_condition(
    text: Seq<char>,
    e: String,
    list: Seq<&'static str>,
    i: int,
)
    ensures
        if_so(true, text) == seq![text],
        if_so(false, text).len() == 0,
        error_text(Ok(())) is None,
        error_text(Err(e)) == Some(e@),
        slice_texts(list).len() == list.len(),
        0 <= i < list.len() ==> slice_texts(list)[i] == list[i]@,
{
}

} // verus!

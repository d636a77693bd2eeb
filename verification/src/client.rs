//! Embedded browser client for `quay`.
//!
//! Contains a self-contained JavaScript snippet that connects to the quay
//! WebSocket server and handles `reload` and `inject-css` messages.  The
//! snippet is designed to be dropped into any HTML page via a `<script>` tag.
//!
//! - Auto-detects the WebSocket URL from `window.location.hostname`
//! - Reconnects automatically with exponential backoff (1 s to 30 s)
//! - Handles `reload` messages by calling `location.reload()`
//! - Handles `inject-css` messages by decoding base64 content and
//!   inserting/updating a `<style data-quay="<path>">` element
//! - Logs connection lifecycle events to the browser console

use crate::text::{
    decimal, decimal_string, law_first_occurrence_is_replaced, occurs_at, push_decimal, replace_all,
    replace_all_in,
};
use vstd::prelude::*;
use vstd::string::*;

verus! {

/// The default WebSocket port used by quay.
pub const DEFAULT_WS_PORT: u16 = 3012;

/// JavaScript client that can be embedded directly in a `<script>` tag or
/// served as a standalone `.js` file.
///
/// The client reads an optional `data-port` attribute from its own `<script>`
/// element to allow overriding the default port.
pub const CLIENT_JS: &'static str = r#"(function(){
  "use strict";

  var DEFAULT_PORT = /*PORT_PLACEHOLDER*/3012;

  // Try to read a custom port from the <script> tag's data-port attribute.
  var scriptEl = document.currentScript;
  var port = (scriptEl && scriptEl.getAttribute("data-port"))
    ? parseInt(scriptEl.getAttribute("data-port"), 10)
    : DEFAULT_PORT;

  var reconnectDelay = 1000;
  var maxReconnectDelay = 30000;
  var reconnectTimer = null;

  function log(msg) {
    console.log("%c[quay]%c " + msg, "color:#e06c75;font-weight:bold", "color:inherit");
  }

  function warn(msg) {
    console.warn("[quay] " + msg);
  }

  // Base64 decode that works in all browsers.
  function b64decode(str) {
    try {
      return atob(str);
    } catch (e) {
      warn("failed to decode base64 content: " + e);
      return "";
    }
  }

  function cssBasename(p) {
    p = String(p).split("?")[0];
    var i = p.lastIndexOf("/");
    return i >= 0 ? p.slice(i + 1) : p;
  }

  function injectCSS(path, encodedContent) {
    // Prefer reloading a matching <link>: re-fetching the file from disk applies
    // additions AND deletions.  A layered <style> can only add/override rules,
    // so a deleted rule would silently persist.
    var base = cssBasename(path);
    var links = document.querySelectorAll('link[rel="stylesheet"]');
    var matched = false;
    for (var i = 0; i < links.length; i++) {
      var href = links[i].getAttribute("href");
      if (href && cssBasename(href) === base) {
        var clean = href.split("?")[0];
        links[i].setAttribute("href", clean + "?quay=" + Date.now());
        matched = true;
        log("reloaded stylesheet " + base);
      }
    }
    if (matched) return;

    // Fallback (no matching <link>, e.g. inline styling): inject/replace a
    // <style> block keyed by path.
    var css = b64decode(encodedContent);
    var existing = document.querySelector('style[data-quay="' + CSS.escape(path) + '"]');
    if (existing) {
      existing.textContent = css;
      log("injected CSS update for " + path);
    } else {
      var style = document.createElement("style");
      style.setAttribute("data-quay", path);
      style.textContent = css;
      document.head.appendChild(style);
      log("injected new CSS for " + path);
    }
  }

  function connect() {
    var host = location.hostname || "localhost";
    var proto = (location.protocol === "https:") ? "wss://" : "ws://";
    var url = proto + host + ":" + port;
    log("connecting to " + url);

    var ws;
    try {
      ws = new WebSocket(url);
    } catch (e) {
      warn("WebSocket constructor failed: " + e);
      scheduleReconnect();
      return;
    }

    ws.onopen = function() {
      log("connected");
      reconnectDelay = 1000; // reset backoff on successful connection
    };

    ws.onmessage = function(event) {
      var msg;
      try {
        msg = JSON.parse(event.data);
      } catch (e) {
        warn("failed to parse message: " + event.data);
        return;
      }

      switch (msg.type) {
        case "reload":
          log("reloading page");
          location.reload();
          break;

        case "inject-css":
          if (msg.path && msg.content) {
            injectCSS(msg.path, msg.content);
          } else {
            warn("inject-css message missing path or content");
          }
          break;

        default:
          log("unknown message type: " + msg.type);
      }
    };

    ws.onclose = function(event) {
      log("disconnected (code " + event.code + ")");
      scheduleReconnect();
    };

    ws.onerror = function() {
      // onclose will fire after onerror, so reconnection is handled there.
    };
  }

  function scheduleReconnect() {
    if (reconnectTimer) return;
    log("reconnecting in " + (reconnectDelay / 1000) + "s");
    reconnectTimer = setTimeout(function() {
      reconnectTimer = null;
      connect();
    }, reconnectDelay);
    // Exponential backoff with cap.
    reconnectDelay = Math.min(reconnectDelay * 2, maxReconnectDelay);
  }

  // Start on DOMContentLoaded if the document isn't ready yet, otherwise
  // connect immediately (covers dynamically injected scripts).
  if (document.readyState === "loading") {
    document.addEventListener("DOMContentLoaded", connect);
  } else {
    connect();
  }
})();
"#;

/// The client with its default port replaced.
pub open spec fn client_for(port: u16) -> Seq<char> {
    replace_all(CLIENT_JS@, "/*PORT_PLACEHOLDER*/3012"@, decimal(port as nat))
}

/// A `<script>` tag with the client in it.
pub open spec fn inline_tag(port: u16) -> Seq<char> {
    "<script>"@ + client_for(port) + "</script>"@
}

/// A `<script>` tag that refers to the client.
pub open spec fn external_tag(src: Seq<char>, port: u16) -> Seq<char> {
    if port != DEFAULT_WS_PORT {
        "<script src=\""@ + src + "\" data-port=\""@ + decimal(port as nat) + "\"></script>"@
    } else {
        "<script src=\""@ + src + "\"></script>"@
    }
}

/// The help text on how to add the client to a page.
pub open spec fn snippet_text(port: u16) -> Seq<char> {
    "Add one of the following to your HTML pages to enable hot-reloading:\n\n"@
        + "Option 1 — inline script (no extra requests):\n\n"@ + "  "@ + inline_tag(port) + "\n\n"@
        + "Option 2 — external script tag (if you serve the JS file yourself):\n\n"@ + "  "@
        + external_tag("/quay-client.js"@, port) + "\n"@
}

/// Returns a complete `<script>` tag that embeds the hot-reload client inline.
pub fn inline_script_tag(port: u16) -> (r: String)
    ensures
        r@ == inline_tag(port),
{
    proof {
        reveal_strlit("/*PORT_PLACEHOLDER*/3012");
    }
    let number = decimal_string(port as u64);
    let js = replace_all_in(CLIENT_JS, "/*PORT_PLACEHOLDER*/3012", number.as_str());
    let mut r: String = "<script>".to_owned();
    r.append(js.as_str());
    r.append("</script>");
    r
}

/// Returns a `<script src="...">` tag pointing at an external URL, with a
/// `data-port` attribute when the port differs from the default.
pub fn external_script_tag(src: &str, port: u16) -> (r: String)
    ensures
        r@ == external_tag(src@, port),
{
    let mut r: String = "<script src=\"".to_owned();
    r.append(src);
    if port != DEFAULT_WS_PORT {
        r.append("\" data-port=\"");
        push_decimal(&mut r, port as u64);
        r.append("\"></script>");
    } else {
        r.append("\"></script>");
    }
    r
}

/// Returns a user-friendly help string showing how to add the client to a page.
pub fn snippet_help(port: u16) -> (r: String)
    ensures
        r@ == snippet_text(port),
{
    let inline = inline_script_tag(port);
    let external = external_script_tag("/quay-client.js", port);
    let mut help: String =
        "Add one of the following to your HTML pages to enable hot-reloading:\n\n".to_owned();
    help.append("Option 1 — inline script (no extra requests):\n\n");
    help.append("  ");
    help.append(inline.as_str());
    help.append("\n\n");
    help.append("Option 2 — external script tag (if you serve the JS file yourself):\n\n");
    help.append("  ");
    help.append(external.as_str());
    help.append("\n");
    help
}

/// A tag that refers to the client names its source, and the port exactly if it is not the
/// default one.
pub proof fn law_external_tag_names_source_and_port(src: Seq<char>, port: u16)
    ensures
        port == 3012 ==> external_tag(src, port) == "<script src=\""@ + src + "\"></script>"@,
        port != 3012 ==> external_tag(src, port) == "<script src=\""@ + src + "\" data-port=\""@
            + decimal(port as nat) + "\"></script>"@,
{
}

/// A tag with the client in it holds the client's text, with the port wherever the client
/// has its default port: up to the first such place the text stands as it is, and after it
/// the rest is treated in the same way.
pub proof fn law_inline_tag_holds_the_client(port: u16, i: int)
    requires
        occurs_at(CLIENT_JS@, "/*PORT_PLACEHOLDER*/3012"@, i),
        forall|j: int| 0 <= j < i ==> !occurs_at(CLIENT_JS@, "/*PORT_PLACEHOLDER*/3012"@, j),
    ensures
        ({
            let mark = "/*PORT_PLACEHOLDER*/3012"@;
            let number = decimal(port as nat);
            inline_tag(port) == "<script>"@ + (CLIENT_JS@.take(i) + number + replace_all(
                CLIENT_JS@.skip(i + mark.len()),
                mark,
                number,
            )) + "</script>"@
        }),
{
    reveal_strlit("/*PORT_PLACEHOLDER*/3012");
    law_first_occurrence_is_replaced(
        CLIENT_JS@,
        "/*PORT_PLACEHOLDER*/3012"@,
        decimal(port as nat),
        i,
    );
}

/// The help shows both tags for the port, the inline one first.
pub proof fn law_help_shows_both_tags(port: u16)
    ensures
        snippet_text(port)
            == "Add one of the following to your HTML pages to enable hot-reloading:\n\n"@
            + "Option 1 — inline script (no extra requests):\n\n"@ + "  "@ + inline_tag(port)
            + "\n\n"@ + "Option 2 — external script tag (if you serve the JS file yourself):\n\n"@
            + "  "@ + external_tag("/quay-client.js"@, port) + "\n"@,
{
}

} // verus!

//! The Share control handed to the theme as `share_control`: chips for the preset
//! lifetimes, a custom date bounded exactly as the server bounds it, and the links this
//! viewer already issued for the page. A theme that never places it simply has no
//! sharing.
use vstd::prelude::*;

use crate::auth::store::LinkRecord;
use crate::config::{duration_spec, parse_duration};
use crate::html::{escape, escape_spec};
use crate::links::time::{humanize_remaining, humanize_remaining_spec};
use crate::links::{date_text, earliest_allowed_date, fits_i64, latest_allowed_date, LinkSettings};
use crate::text::{decimal, push_decimal, push_str, string_of};

verus! {

pub const CONTROL_OPEN: &'static str = "<div class=\"mdshelf-share\" id=\"mdshelf-share\" data-page=\"";

pub const CONTROL_PANEL: &'static str = "\">\n<button type=\"button\" class=\"icon-button mdshelf-share-toggle\" id=\"mdshelf-share-button\" aria-haspopup=\"dialog\" aria-expanded=\"false\" aria-controls=\"mdshelf-share-panel\" title=\"Share\" aria-label=\"Share this page\"><svg xmlns=\"http://www.w3.org/2000/svg\" width=\"16\" height=\"16\" viewBox=\"0 0 24 24\" fill=\"none\" stroke=\"currentColor\" stroke-width=\"2\" stroke-linecap=\"round\" stroke-linejoin=\"round\" aria-hidden=\"true\"><circle cx=\"18\" cy=\"5\" r=\"3\"/><circle cx=\"6\" cy=\"12\" r=\"3\"/><circle cx=\"18\" cy=\"19\" r=\"3\"/><line x1=\"8.6\" y1=\"13.5\" x2=\"15.4\" y2=\"17.5\"/><line x1=\"15.4\" y1=\"6.5\" x2=\"8.6\" y2=\"10.5\"/></svg></button>\n<div class=\"mdshelf-share-panel\" id=\"mdshelf-share-panel\" role=\"dialog\" aria-label=\"Share this page\" aria-describedby=\"mdshelf-share-caption\" hidden>\n";

pub const CONTROL_HEAD: &'static str = "<div class=\"mdshelf-share-head\">\n<p class=\"mdshelf-share-title\">Share this page</p>\n<p class=\"mdshelf-share-caption\" id=\"mdshelf-share-caption\">Anyone with the link can read this page, without signing in.</p>\n</div>\n";

pub const FORM_OPEN: &'static str = "<form id=\"mdshelf-share-form\" novalidate>\n<fieldset class=\"mdshelf-share-durations\">\n<legend>Expires in</legend>\n<div class=\"mdshelf-share-chips\">\n";

pub const CHIP_0: &'static str = "<label class=\"mdshelf-share-chip\"><input type=\"radio\" name=\"lifetime\" value=\"";

pub const CHIP_1: &'static str = "\"";

pub const CHIP_2: &'static str = " aria-label=\"";

pub const CHIP_3: &'static str = "\"><span>";

pub const CHIP_4: &'static str = "</span></label>";

pub const CHIPS_CLOSE: &'static str = "</div>\n";

pub const CUSTOM_0: &'static str = "<button type=\"button\" class=\"mdshelf-share-custom\" id=\"mdshelf-share-custom\" aria-pressed=\"false\" aria-expanded=\"false\" aria-controls=\"mdshelf-share-date\" data-idle=\"";

pub const CUSTOM_1: &'static str = "\"><svg xmlns=\"http://www.w3.org/2000/svg\" width=\"15\" height=\"15\" viewBox=\"0 0 24 24\" fill=\"none\" stroke=\"currentColor\" stroke-width=\"2\" stroke-linecap=\"round\" stroke-linejoin=\"round\" aria-hidden=\"true\"><rect width=\"18\" height=\"18\" x=\"3\" y=\"4\" rx=\"2\"/><path d=\"M8 2v4M16 2v4M3 10h18\"/></svg><span class=\"mdshelf-share-custom-label\" id=\"mdshelf-share-custom-label\">";

pub const CUSTOM_2: &'static str = "</span></button>\n<input type=\"date\" class=\"mdshelf-share-date\" id=\"mdshelf-share-date\" name=\"until\" min=\"";

pub const CUSTOM_3: &'static str = "\" max=\"";

pub const CUSTOM_4: &'static str = "\" aria-label=\"Custom expiry date\" hidden>\n</fieldset>\n<button type=\"submit\" class=\"mdshelf-share-create\" id=\"mdshelf-share-create\">Create link</button>\n<p class=\"mdshelf-share-error\" id=\"mdshelf-share-error\" role=\"alert\" hidden></p>\n</form>\n";

pub const RESULT: &'static str = "<div class=\"mdshelf-share-result\" id=\"mdshelf-share-result\" hidden>\n<div class=\"mdshelf-share-url-row\">\n<input type=\"text\" id=\"mdshelf-share-url\" readonly spellcheck=\"false\" aria-label=\"Share URL\">\n<button type=\"button\" class=\"mdshelf-share-copy\" id=\"mdshelf-share-copy\">Copy</button>\n</div>\n<p class=\"mdshelf-share-once\">Shown once. mdshelf stores only a hash, so this URL cannot be shown again &mdash; if it is lost, create another.</p>\n</div>\n";

pub const LIST_OPEN: &'static str = "<ul class=\"mdshelf-share-list\" id=\"mdshelf-share-list\">";

pub const LIST_CLOSE: &'static str = "</ul>\n";

pub const EMPTY_OPEN: &'static str = "<p class=\"mdshelf-share-empty\" id=\"mdshelf-share-empty\"";

pub const EMPTY_CLOSE: &'static str = ">No live links for this page.</p>\n";

pub const CONTROL_CLOSE: &'static str = "</div>\n</div>\n";

pub const STYLES: &'static str = "<style>\n.mdshelf-share{position:relative;display:flex;align-items:center}\n.mdshelf-share-toggle[aria-expanded=\"true\"]{background:var(--surface-hover,#f4f4f5);\ncolor:var(--text-heading,#09090b)}\n.mdshelf-share-panel{position:absolute;right:0;top:calc(100% + .625rem);z-index:200;\nwidth:20.5rem;max-width:calc(100vw - 1.5rem);display:flex;flex-direction:column;gap:.875rem;\npadding:1rem;background:var(--bg,#fff);border:1px solid var(--border,#e4e4e7);\nborder-radius:var(--radius-sm,10px);box-shadow:var(--shadow-lg,0 12px 32px rgba(0,0,0,.14));\nfont-family:var(--font,system-ui,sans-serif);font-size:.8125rem;line-height:1.45;\ncolor:var(--text,#3f3f46);text-align:left;animation:mdshelf-share-in .14s ease-out}\n.mdshelf-share-panel[hidden]{display:none}\n@keyframes mdshelf-share-in{from{opacity:0;transform:translateY(-.25rem)}to{opacity:1;transform:none}}\n@media (prefers-reduced-motion:reduce){.mdshelf-share-panel{animation:none}}\n.mdshelf-share-title{margin:0;font-size:.8125rem;font-weight:600;color:var(--text-heading,#09090b)}\n.mdshelf-share-caption{margin:.1875rem 0 0;color:var(--muted,#71717a);font-size:.75rem}\n#mdshelf-share-form{display:flex;flex-direction:column;gap:.75rem;margin:0}\n.mdshelf-share-durations{display:block;margin:0;padding:0;border:0}\n.mdshelf-share-durations legend{display:block;float:left;width:100%;margin:0 0 .5rem;padding:0;\nfont-size:.6875rem;font-weight:600;letter-spacing:.05em;text-transform:uppercase;\ncolor:var(--muted,#71717a)}\n/* One row per unit — minutes, hours, days, then weeks and the month — so the grid\n   reads as four groups of three rather than twelve numbers. */\n.mdshelf-share-chips{clear:both;display:grid;grid-template-columns:repeat(3,minmax(0,1fr));gap:.375rem}\n.mdshelf-share-chip{position:relative;display:block}\n.mdshelf-share-chip input{position:absolute;inset:0;width:100%;height:100%;margin:0;\nopacity:0;appearance:none;cursor:pointer}\n.mdshelf-share-chip span{display:block;padding:.375rem 0;border:1px solid var(--border,#e4e4e7);\nborder-radius:7px;background:var(--bg,#fff);color:var(--text,#3f3f46);font-size:.75rem;\nfont-weight:500;font-variant-numeric:tabular-nums;text-align:center;\ntransition:color .15s ease,background .15s ease,border-color .15s ease}\n.mdshelf-share-chip:hover span{background:var(--surface-hover,#f4f4f5);color:var(--text-heading,#09090b)}\n.mdshelf-share-chip input:checked+span{background:var(--accent-soft,rgba(5,150,105,.08));\nborder-color:var(--accent,#059669);color:var(--accent,#059669);font-weight:600}\n.mdshelf-share-chip input:focus-visible+span{outline:2px solid var(--accent,#059669);outline-offset:1px}\n.mdshelf-share-custom{display:flex;align-items:center;justify-content:center;gap:.5rem;\nwidth:100%;min-height:2.25rem;margin-top:.5rem;padding:.5rem .75rem;\nborder:1px solid var(--border,#e4e4e7);border-radius:8px;background:var(--surface,#fafafa);\ncolor:var(--text,#3f3f46);font:inherit;font-weight:500;cursor:pointer;\ntransition:color .15s ease,background .15s ease,border-color .15s ease}\n.mdshelf-share-custom:hover{background:var(--surface-hover,#f4f4f5);color:var(--text-heading,#09090b)}\n.mdshelf-share-custom:focus-visible{outline:2px solid var(--accent,#059669);outline-offset:1px}\n.mdshelf-share-custom[aria-pressed=\"true\"]{background:var(--accent-soft,rgba(5,150,105,.08));\nborder-color:var(--accent,#059669);color:var(--accent,#059669);font-weight:600}\n.mdshelf-share-custom svg{flex:none}\n.mdshelf-share-date{width:100%;margin-top:.5rem;padding:.4375rem .5rem;\nborder:1px solid var(--border,#e4e4e7);border-radius:8px;background:var(--bg,#fff);\ncolor:inherit;font:inherit}\n.mdshelf-share-date[hidden]{display:none}\n.mdshelf-share-create{min-height:2.25rem;padding:.5rem .75rem;border:1px solid transparent;\nborder-radius:8px;background:var(--accent,#059669);color:#fff;font:inherit;font-weight:600;\ncursor:pointer;transition:background .15s ease,opacity .15s ease}\n.mdshelf-share-create:hover:not(:disabled){background:var(--accent-hover,#047857)}\n.mdshelf-share-create:disabled{opacity:.6;cursor:default}\n.mdshelf-share-error{margin:0;color:#dc2626;font-size:.75rem}\n.mdshelf-share-error[hidden]{display:none}\n.mdshelf-share-result{display:flex;flex-direction:column;gap:.375rem;padding:.75rem;\nborder:1px solid var(--border,#e4e4e7);border-radius:8px;background:var(--surface,#fafafa)}\n.mdshelf-share-result[hidden]{display:none}\n.mdshelf-share-url-row{display:flex;gap:.375rem;align-items:center}\n#mdshelf-share-url{flex:1 1 auto;min-width:0;padding:.375rem .5rem;border-radius:6px;\nborder:1px solid var(--border,#e4e4e7);background:var(--bg,#fff);color:var(--text,#3f3f46);\nfont-family:var(--mono,ui-monospace,SFMono-Regular,Menlo,monospace);font-size:.75rem}\n.mdshelf-share-copy{flex:none;padding:.375rem .625rem;border:1px solid var(--border,#e4e4e7);\nborder-radius:6px;background:var(--bg,#fff);color:var(--text,#3f3f46);font:inherit;\nfont-size:.75rem;font-weight:600;cursor:pointer;transition:color .15s ease,background .15s ease}\n.mdshelf-share-copy:hover{background:var(--surface-hover,#f4f4f5);color:var(--text-heading,#09090b)}\n.mdshelf-share-copy.is-done{border-color:var(--accent,#059669);color:var(--accent,#059669)}\n.mdshelf-share-once{margin:0;color:var(--muted,#71717a);font-size:.6875rem;line-height:1.4}\n.mdshelf-share-list{list-style:none;display:flex;flex-direction:column;gap:.25rem;\nmargin:0;padding:.875rem 0 0;border-top:1px solid var(--border,#e4e4e7)}\n.mdshelf-share-list:empty{display:none}\n.mdshelf-share-list li{display:flex;gap:.5rem;align-items:center}\n.mdshelf-share-id{flex:none;padding:.125rem .375rem;border-radius:5px;\nbackground:var(--surface-hover,#f4f4f5);\nfont-family:var(--mono,ui-monospace,SFMono-Regular,Menlo,monospace);font-size:.6875rem;\ncolor:var(--text-heading,#09090b)}\n.mdshelf-share-expiry{flex:1 1 auto;min-width:0;color:var(--muted,#71717a);font-size:.75rem}\n.mdshelf-share-revoke{flex:none;padding:.1875rem .5rem;border:1px solid var(--border,#e4e4e7);\nborder-radius:6px;background:transparent;color:var(--muted,#71717a);font:inherit;\nfont-size:.6875rem;font-weight:600;cursor:pointer;\ntransition:color .15s ease,background .15s ease,border-color .15s ease}\n.mdshelf-share-revoke:hover:not(:disabled){border-color:#dc2626;color:#dc2626}\n.mdshelf-share-revoke:disabled{opacity:.6;cursor:default}\n.mdshelf-share-empty{margin:0;padding-top:.875rem;border-top:1px solid var(--border,#e4e4e7);\ncolor:var(--muted,#71717a);font-size:.75rem}\n.mdshelf-share-empty[hidden]{display:none}\n</style>\n";

pub const SCRIPT: &'static str = "<script>\n(function () {\n  var root = document.getElementById('mdshelf-share');\n  if (!root) return;\n  var button = document.getElementById('mdshelf-share-button');\n  var panel = document.getElementById('mdshelf-share-panel');\n  var form = document.getElementById('mdshelf-share-form');\n  var custom = document.getElementById('mdshelf-share-custom');\n  var customLabel = document.getElementById('mdshelf-share-custom-label');\n  var date = document.getElementById('mdshelf-share-date');\n  var create = document.getElementById('mdshelf-share-create');\n  var error = document.getElementById('mdshelf-share-error');\n  var result = document.getElementById('mdshelf-share-result');\n  var urlField = document.getElementById('mdshelf-share-url');\n  var copy = document.getElementById('mdshelf-share-copy');\n  var list = document.getElementById('mdshelf-share-list');\n  var empty = document.getElementById('mdshelf-share-empty');\n\n  function open(next, restoreFocus) {\n    panel.hidden = !next;\n    button.setAttribute('aria-expanded', String(next));\n    if (next) {\n      var checked = form.querySelector('input[name=\"lifetime\"]:checked');\n      (checked || custom).focus();\n    } else if (restoreFocus) {\n      button.focus();\n    }\n  }\n  button.addEventListener('click', function () { open(panel.hidden, true); });\n  document.addEventListener('click', function (event) {\n    if (!panel.hidden && !root.contains(event.target)) open(false, false);\n  });\n  document.addEventListener('keydown', function (event) {\n    if (event.key === 'Escape' && !panel.hidden) open(false, true);\n  });\n\n  function fail(message) { error.textContent = message; error.hidden = false; }\n\n  function refreshEmpty() { empty.hidden = list.children.length > 0; }\n\n  // The custom button is the thirteenth option, not a thirteenth chip: pressing it\n  // clears the preset selection, so exactly one lifetime is ever in effect.\n  function useCustom(on) {\n    custom.setAttribute('aria-pressed', String(on));\n    if (!on) return;\n    var chips = form.querySelectorAll('input[name=\"lifetime\"]');\n    Array.prototype.forEach.call(chips, function (chip) { chip.checked = false; });\n  }\n  function customIsChosen() { return custom.getAttribute('aria-pressed') === 'true'; }\n\n  // Formatted as UTC, because a bare date means the end of that day in UTC on the\n  // server; formatting it locally could show the day either side of the real expiry.\n  function humanDate(value) {\n    var parts = value.split('-');\n    var stamp = Date.UTC(Number(parts[0]), Number(parts[1]) - 1, Number(parts[2]));\n    try {\n      return new Date(stamp).toLocaleDateString(undefined, {\n        timeZone: 'UTC', year: 'numeric', month: 'short', day: 'numeric'\n      });\n    } catch (e) { return value; }\n  }\n\n  custom.addEventListener('click', function () {\n    date.hidden = false;\n    custom.setAttribute('aria-expanded', 'true');\n    useCustom(true);\n    date.focus();\n    if (typeof date.showPicker === 'function') { try { date.showPicker(); } catch (e) {} }\n  });\n  date.addEventListener('change', function () {\n    if (!date.value) {\n      customLabel.textContent = custom.getAttribute('data-idle');\n      useCustom(false);\n      return;\n    }\n    customLabel.textContent = custom.getAttribute('data-idle') + ' \\u00b7 ' + humanDate(date.value);\n    useCustom(true);\n  });\n  // Picking a preset puts the custom field away again: leaving a date input open under\n  // a selected chip suggests both are in effect, and only one ever is.\n  form.addEventListener('change', function (event) {\n    if (!event.target || event.target.name !== 'lifetime') return;\n    useCustom(false);\n    date.hidden = true;\n    custom.setAttribute('aria-expanded', 'false');\n  });\n\n  function wireRevoke(node) {\n    var control = node.querySelector('[data-revoke]');\n    if (!control) return;\n    control.addEventListener('click', function () {\n      control.disabled = true;\n      fetch('/__share/revoke', {\n        method: 'POST',\n        headers: { 'Content-Type': 'application/json' },\n        body: JSON.stringify({ id: control.getAttribute('data-revoke') })\n      }).then(function (response) {\n        if (!response.ok) { control.disabled = false; fail('Could not revoke that link.'); return; }\n        node.remove();\n        refreshEmpty();\n      }).catch(function () { control.disabled = false; fail('Could not revoke that link.'); });\n    });\n  }\n  Array.prototype.forEach.call(list.children, wireRevoke);\n\n  form.addEventListener('submit', function (event) {\n    event.preventDefault();\n    error.hidden = true;\n    var body = { url: root.getAttribute('data-page') };\n    if (customIsChosen()) {\n      if (!date.value) { date.hidden = false; fail('Pick a date.'); date.focus(); return; }\n      if (date.max && date.value > date.max) {\n        fail('That is beyond the longest link this site allows (' + date.max + ').');\n        return;\n      }\n      if (date.min && date.value < date.min) { fail('Pick a date that is still ahead.'); return; }\n      body.until = date.value;\n    } else {\n      var choice = form.querySelector('input[name=\"lifetime\"]:checked');\n      if (choice) body['for'] = choice.value;\n    }\n    create.disabled = true;\n    fetch('/__share', {\n      method: 'POST',\n      headers: { 'Content-Type': 'application/json' },\n      body: JSON.stringify(body)\n    }).then(function (response) {\n      return response.json().then(function (payload) { return { ok: response.ok, payload: payload }; });\n    }).then(function (outcome) {\n      create.disabled = false;\n      if (!outcome.ok) { fail(outcome.payload.error || 'Could not create a link.'); return; }\n      urlField.value = outcome.payload.url;\n      result.hidden = false;\n      urlField.focus();\n      urlField.select();\n      var row = document.createElement('li');\n      row.setAttribute('data-link-id', outcome.payload.id);\n      row.innerHTML = '<span class=\"mdshelf-share-id\"></span>' +\n        '<span class=\"mdshelf-share-expiry\"></span>' +\n        '<button type=\"button\" class=\"mdshelf-share-revoke\">Revoke</button>';\n      row.querySelector('.mdshelf-share-id').textContent = outcome.payload.id;\n      row.querySelector('.mdshelf-share-expiry').textContent = 'expires in ' + outcome.payload.expires_in;\n      row.querySelector('.mdshelf-share-revoke').setAttribute('data-revoke', outcome.payload.id);\n      list.appendChild(row);\n      wireRevoke(row);\n      refreshEmpty();\n    }).catch(function () { create.disabled = false; fail('Could not create a link.'); });\n  });\n\n  copy.addEventListener('click', function () {\n    urlField.select();\n    if (navigator.clipboard) navigator.clipboard.writeText(urlField.value);\n    else document.execCommand('copy');\n    copy.textContent = 'Copied';\n    copy.classList.add('is-done');\n    setTimeout(function () { copy.textContent = 'Copy'; copy.classList.remove('is-done'); }, 1500);\n  });\n})();\n</script>\n";

pub const ROW_0: &'static str = "<li data-link-id=\"";

pub const ROW_1: &'static str = "\"><span class=\"mdshelf-share-id\">";

pub const ROW_2: &'static str = "</span><span class=\"mdshelf-share-expiry\">expires in ";

pub const ROW_3: &'static str = "</span><button type=\"button\" class=\"mdshelf-share-revoke\" data-revoke=\"";

pub const ROW_4: &'static str = "\">Revoke</button></li>\n";

/// The label of the custom-date button, kept in a data attribute so the script has no
/// second copy of it to drift from.
pub const CUSTOM_IDLE_LABEL: &'static str = "Custom date";

/// How many lifetimes the popover offers as chips.
pub const PRESET_COUNT: usize = 12;

/// The preset lifetimes as (value, label, spoken): the value is what the mint endpoint
/// parses, the label fits a chip, the spoken form is read instead of "5m". Three per
/// unit, so the grid reads as rows of minutes, hours, days, and weeks with the month.
pub open spec fn preset_spec(i: int) -> (Seq<char>, Seq<char>, Seq<char>) {
    if i == 0 {
        ("5m"@, "5m"@, "5 minutes"@)
    } else if i == 1 {
        ("15m"@, "15m"@, "15 minutes"@)
    } else if i == 2 {
        ("30m"@, "30m"@, "30 minutes"@)
    } else if i == 3 {
        ("1h"@, "1h"@, "1 hour"@)
    } else if i == 4 {
        ("4h"@, "4h"@, "4 hours"@)
    } else if i == 5 {
        ("8h"@, "8h"@, "8 hours"@)
    } else if i == 6 {
        ("1d"@, "1d"@, "1 day"@)
    } else if i == 7 {
        ("2d"@, "2d"@, "2 days"@)
    } else if i == 8 {
        ("3d"@, "3d"@, "3 days"@)
    } else if i == 9 {
        ("1w"@, "1w"@, "1 week"@)
    } else if i == 10 {
        ("2w"@, "2w"@, "2 weeks"@)
    } else {
        ("30d"@, "1mo"@, "1 month"@)
    }
}

/// Preset `i`.
pub fn preset(i: usize) -> (r: (&'static str, &'static str, &'static str))
    requires
        i < PRESET_COUNT,
    ensures
        (r.0@, r.1@, r.2@) == preset_spec(i as int),
{
    if i == 0 {
        ("5m", "5m", "5 minutes")
    } else if i == 1 {
        ("15m", "15m", "15 minutes")
    } else if i == 2 {
        ("30m", "30m", "30 minutes")
    } else if i == 3 {
        ("1h", "1h", "1 hour")
    } else if i == 4 {
        ("4h", "4h", "4 hours")
    } else if i == 5 {
        ("8h", "8h", "8 hours")
    } else if i == 6 {
        ("1d", "1d", "1 day")
    } else if i == 7 {
        ("2d", "2d", "2 days")
    } else if i == 8 {
        ("3d", "3d", "3 days")
    } else if i == 9 {
        ("1w", "1w", "1 week")
    } else if i == 10 {
        ("2w", "2w", "2 weeks")
    } else {
        ("30d", "1mo", "1 month")
    }
}

/// Every preset, in order.
pub fn presets() -> (r: Vec<(&'static str, &'static str, &'static str)>)
    ensures
        r.len() == PRESET_COUNT,
        forall|i: int| 0 <= i < PRESET_COUNT ==> ((#[trigger] r@[i]).0@, r@[i].1@, r@[i].2@) == preset_spec(i),
{
    let mut out: Vec<(&'static str, &'static str, &'static str)> = Vec::new();
    let mut i: usize = 0;
    while i < PRESET_COUNT
        invariant
            i <= PRESET_COUNT,
            out.len() == i,
            forall|j: int| 0 <= j < i ==> ((#[trigger] out@[j]).0@, out@[j].1@, out@[j].2@) == preset_spec(j),
        decreases PRESET_COUNT - i,
    {
        out.push(preset(i));
        i += 1;
    }
    out
}

/// A lifetime the site's cap allows.
pub open spec fn within_cap(value: Seq<char>, max: u64) -> bool {
    duration_spec(value) matches Ok(d) && d <= max
}

/// The configured default lifetime.
pub open spec fn is_default(value: Seq<char>, default: u64) -> bool {
    duration_spec(value) matches Ok(d) && d == default
}

/// A chip: value, label, spoken form, and whether it is preselected.
pub type ChipView = (Seq<char>, Seq<char>, Seq<char>, bool);

/// The chips for the first `n` presets the cap allows.
pub open spec fn preset_chips(n: int, s: LinkSettings) -> Seq<ChipView>
    decreases n,
{
    if n <= 0 {
        Seq::empty()
    } else {
        let p = preset_spec(n - 1);
        let prev = preset_chips(n - 1, s);
        if within_cap(p.0, s.max_lifetime) {
            prev.push((p.0, p.1, p.2, is_default(p.0, s.default_lifetime)))
        } else {
            prev
        }
    }
}

/// Whether some preset is the default.
pub open spec fn default_is_preset(s: LinkSettings) -> bool {
    exists|i: int| 0 <= i < PRESET_COUNT && is_default(#[trigger] preset_spec(i).0, s.default_lifetime)
}

/// The configured default written as its own chip, in the largest whole unit.
pub open spec fn custom_chip(secs: nat) -> (Seq<char>, Seq<char>, Seq<char>) {
    let (count, suffix, unit) = if secs % 86_400 == 0 {
        (secs / 86_400, "d"@, "day"@)
    } else if secs % 3_600 == 0 {
        (secs / 3_600, "h"@, "hour"@)
    } else if secs % 60 == 0 {
        (secs / 60, "m"@, "minute"@)
    } else {
        (secs, "s"@, "second"@)
    };
    let value = decimal(count) + suffix;
    (value, value, decimal(count) + " "@ + unit + if count == 1 { ""@ } else { "s"@ })
}

/// The chips offered: the presets within the cap, with the default preselected; when
/// the default is not a preset it becomes its own chip rather than being rounded.
pub open spec fn chips_spec(s: LinkSettings) -> Seq<ChipView> {
    let chips = preset_chips(PRESET_COUNT as int, s);
    if default_is_preset(s) {
        chips
    } else {
        let c = custom_chip(s.default_lifetime as nat);
        chips.push((c.0, c.1, c.2, true))
    }
}

pub open spec fn chip_views(v: Seq<(String, String, String, bool)>) -> Seq<ChipView> {
    v.map_values(|c: (String, String, String, bool)| (c.0@, c.1@, c.2@, c.3))
}

fn is_default_exec(value: &str, default: u64) -> (r: bool)
    ensures
        r == is_default(value@, default),
{
    match parse_duration(value) {
        Ok(d) => d == default,
        Err(_) => false,
    }
}

fn within_cap_exec(value: &str, max: u64) -> (r: bool)
    ensures
        r == within_cap(value@, max),
{
    match parse_duration(value) {
        Ok(d) => d <= max,
        Err(_) => false,
    }
}

fn custom_chip_exec(secs: u64) -> (r: (String, String, String))
    ensures
        (r.0@, r.1@, r.2@) == custom_chip(secs as nat),
{
    let (count, suffix, unit): (u64, &str, &str) = if secs % 86_400 == 0 {
        (secs / 86_400, "d", "day")
    } else if secs % 3_600 == 0 {
        (secs / 3_600, "h", "hour")
    } else if secs % 60 == 0 {
        (secs / 60, "m", "minute")
    } else {
        (secs, "s", "second")
    };
    let mut value: Vec<char> = Vec::new();
    push_decimal(&mut value, count);
    push_str(&mut value, suffix);
    let mut spoken: Vec<char> = Vec::new();
    push_decimal(&mut spoken, count);
    push_str(&mut spoken, " ");
    push_str(&mut spoken, unit);
    if count != 1 {
        push_str(&mut spoken, "s");
    } else {
        assert(""@ =~= Seq::<char>::empty()) by {
            reveal_strlit("");
        }
    }
    assert(spoken@ =~= custom_chip(secs as nat).2);
    (string_of(&value), string_of(&value), string_of(&spoken))
}

/// The chips the popover offers, in order.
pub fn duration_options(settings: &LinkSettings) -> (r: Vec<(String, String, String, bool)>)
    ensures
        chip_views(r@) == chips_spec(*settings),
{
    let mut out: Vec<(String, String, String, bool)> = Vec::new();
    let mut any_default = false;
    let mut i: usize = 0;
    while i < PRESET_COUNT
        invariant
            i <= PRESET_COUNT,
            chip_views(out@) == preset_chips(i as int, *settings),
            any_default == exists|j: int| 0 <= j < i && is_default(#[trigger] preset_spec(j).0, settings.default_lifetime),
        decreases PRESET_COUNT - i,
    {
        let (value, label, spoken) = preset(i);
        let d = is_default_exec(value, settings.default_lifetime);
        if within_cap_exec(value, settings.max_lifetime) {
            let ghost before = out@;
            out.push((value.to_owned(), label.to_owned(), spoken.to_owned(), d));
            assert(chip_views(out@) =~= chip_views(before).push((value@, label@, spoken@, d)));
        }
        proof {
            if d {
                assert(is_default(preset_spec(i as int).0, settings.default_lifetime));
            }
            if !d && any_default == false {
                assert forall|j: int| 0 <= j < i + 1 implies !is_default(#[trigger] preset_spec(j).0, settings.default_lifetime) by {
                    if j < i {
                    }
                }
            }
        }
        any_default = any_default || d;
        i += 1;
    }
    if !any_default {
        let (v, l, s) = custom_chip_exec(settings.default_lifetime);
        let ghost before = out@;
        out.push((v, l, s, true));
        assert(chip_views(out@) =~= chip_views(before).push((
            custom_chip(settings.default_lifetime as nat).0,
            custom_chip(settings.default_lifetime as nat).1,
            custom_chip(settings.default_lifetime as nat).2,
            true,
        )));
    }
    out
}

pub open spec fn chip_html(c: ChipView) -> Seq<char> {
    CHIP_0@ + escape_spec(c.0) + CHIP_1@ + (if c.3 { " checked"@ } else { Seq::empty() }) + CHIP_2@
        + escape_spec(c.2) + CHIP_3@ + escape_spec(c.1) + CHIP_4@ + "\n"@
}

pub open spec fn chips_html(chips: Seq<ChipView>) -> Seq<char>
    decreases chips.len(),
{
    if chips.len() == 0 {
        Seq::empty()
    } else {
        chips_html(chips.drop_last()) + chip_html(chips.last())
    }
}

/// One row of the per-page listing of live links.
pub open spec fn list_row_spec(id: Seq<char>, remaining: int) -> Seq<char> {
    ROW_0@ + escape_spec(id) + ROW_1@ + escape_spec(id) + ROW_2@ + escape_spec(
        humanize_remaining_spec(remaining),
    ) + ROW_3@ + escape_spec(id) + ROW_4@
}

/// One row of the per-page listing: the link's id, how long it has left, and a revoke
/// control.
pub fn list_row(record: &LinkRecord, now: i64) -> (r: String)
    requires
        fits_i64(record.expires_at - now),
    ensures
        r@ == list_row_spec(record.id@, record.expires_at - now),
{
    let mut out: Vec<char> = Vec::new();
    let id = escape(record.id.as_str());
    let left = humanize_remaining(record.expires_at - now);
    let left = escape(left.as_str());
    push_str(&mut out, ROW_0);
    push_str(&mut out, id.as_str());
    push_str(&mut out, ROW_1);
    push_str(&mut out, id.as_str());
    push_str(&mut out, ROW_2);
    push_str(&mut out, left.as_str());
    push_str(&mut out, ROW_3);
    push_str(&mut out, id.as_str());
    push_str(&mut out, ROW_4);
    string_of(&out)
}

pub open spec fn rows_html(records: Seq<LinkRecord>, now: int) -> Seq<char>
    decreases records.len(),
{
    if records.len() == 0 {
        Seq::empty()
    } else {
        rows_html(records.drop_last(), now) + list_row_spec(
            records.last().id@,
            records.last().expires_at - now,
        )
    }
}

/// The whole control for one page.
pub open spec fn render_spec(s: LinkSettings, page_url: Seq<char>, existing: Seq<LinkRecord>, now: int) -> Seq<char> {
    CONTROL_OPEN@ + escape_spec(page_url) + CONTROL_PANEL@ + CONTROL_HEAD@ + FORM_OPEN@
        + chips_html(chips_spec(s)) + CHIPS_CLOSE@ + CUSTOM_0@ + escape_spec(CUSTOM_IDLE_LABEL@)
        + CUSTOM_1@ + escape_spec(CUSTOM_IDLE_LABEL@) + CUSTOM_2@ + escape_spec(date_text(now))
        + CUSTOM_3@ + escape_spec(date_text(now + s.max_lifetime * 1000)) + CUSTOM_4@ + RESULT@
        + LIST_OPEN@ + rows_html(existing, now) + LIST_CLOSE@ + EMPTY_OPEN@ + (if existing.len() == 0 {
        Seq::empty()
    } else {
        " hidden"@
    }) + EMPTY_CLOSE@ + CONTROL_CLOSE@ + STYLES@ + SCRIPT@
}

/// Render the control for one page. `existing` holds the live links this viewer has
/// already issued for it, so the popover answers "is this already shared?" where the
/// question arises.
pub fn render(settings: &LinkSettings, page_url: &str, existing: &[LinkRecord], now: i64) -> (r: String)
    requires
        fits_i64(settings.max_lifetime * 1000),
        fits_i64(now + settings.max_lifetime * 1000),
        forall|i: int| 0 <= i < existing@.len() ==> fits_i64(#[trigger] existing@[i].expires_at - now),
    ensures
        r@ == render_spec(*settings, page_url@, existing@, now as int),
{
    let mut out: Vec<char> = Vec::new();
    push_str(&mut out, CONTROL_OPEN);
    let page = escape(page_url);
    push_str(&mut out, page.as_str());
    push_str(&mut out, CONTROL_PANEL);
    push_str(&mut out, CONTROL_HEAD);
    push_str(&mut out, FORM_OPEN);
    let chips = duration_options(settings);
    let ghost before_chips = out@;
    let mut i: usize = 0;
    assert(chip_views(chips@).take(0) =~= Seq::<ChipView>::empty());
    while i < chips.len()
        invariant
            i <= chips.len(),
            out@ == before_chips + chips_html(chip_views(chips@).take(i as int)),
        decreases chips.len() - i,
    {
        let c = &chips[i];
        push_str(&mut out, CHIP_0);
        let v = escape(c.0.as_str());
        push_str(&mut out, v.as_str());
        push_str(&mut out, CHIP_1);
        if c.3 {
            push_str(&mut out, " checked");
        } else {
            assert(Seq::<char>::empty() + CHIP_2@ =~= CHIP_2@);
        }
        push_str(&mut out, CHIP_2);
        let sp = escape(c.2.as_str());
        push_str(&mut out, sp.as_str());
        push_str(&mut out, CHIP_3);
        let l = escape(c.1.as_str());
        push_str(&mut out, l.as_str());
        push_str(&mut out, CHIP_4);
        push_str(&mut out, "\n");
        assert(chip_views(chips@).take(i + 1).drop_last() =~= chip_views(chips@).take(i as int));
        assert(out@ =~= before_chips + chips_html(chip_views(chips@).take(i + 1)));
        i += 1;
    }
    assert(chip_views(chips@).take(chips@.len() as int) =~= chip_views(chips@));
    push_str(&mut out, CHIPS_CLOSE);
    push_str(&mut out, CUSTOM_0);
    let idle = escape(CUSTOM_IDLE_LABEL);
    push_str(&mut out, idle.as_str());
    push_str(&mut out, CUSTOM_1);
    push_str(&mut out, idle.as_str());
    push_str(&mut out, CUSTOM_2);
    let min = earliest_allowed_date(now);
    let min = escape(min.as_str());
    push_str(&mut out, min.as_str());
    push_str(&mut out, CUSTOM_3);
    let max = latest_allowed_date(settings, now);
    let max = escape(max.as_str());
    push_str(&mut out, max.as_str());
    push_str(&mut out, CUSTOM_4);
    push_str(&mut out, RESULT);
    push_str(&mut out, LIST_OPEN);
    let ghost before_rows = out@;
    let mut j: usize = 0;
    assert(existing@.take(0) =~= Seq::<LinkRecord>::empty());
    while j < existing.len()
        invariant
            j <= existing@.len(),
            forall|i: int| 0 <= i < existing@.len() ==> fits_i64(#[trigger] existing@[i].expires_at - now),
            out@ == before_rows + rows_html(existing@.take(j as int), now as int),
        decreases existing.len() - j,
    {
        let row = list_row(&existing[j], now);
        push_str(&mut out, row.as_str());
        assert(existing@.take(j + 1).drop_last() =~= existing@.take(j as int));
        assert(out@ =~= before_rows + rows_html(existing@.take(j + 1), now as int));
        j += 1;
    }
    assert(existing@.take(existing@.len() as int) =~= existing@);
    push_str(&mut out, LIST_CLOSE);
    push_str(&mut out, EMPTY_OPEN);
    if existing.len() != 0 {
        push_str(&mut out, " hidden");
    }
    push_str(&mut out, EMPTY_CLOSE);
    push_str(&mut out, CONTROL_CLOSE);
    push_str(&mut out, STYLES);
    push_str(&mut out, SCRIPT);
    assert(out@ =~= render_spec(*settings, page_url@, existing@, now as int));
    string_of(&out)
}

} // verus!

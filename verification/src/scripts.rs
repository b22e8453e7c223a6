//! The scripts that run inside a page.

use crate::outside;
use crate::outside::json_text;
use crate::text;
use crate::text::decimal_text;
use vstd::prelude::*;
use vstd::string::*;

verus! {

/// Fonts loaded, near-viewport images loaded (3s cap each), two frames painted,
/// then any running finite animations and transitions allowed to finish (3s cap;
/// infinite loops never settle and are skipped).  Images off screen do not appear
/// in the capture, and lazily loaded ones would stall the wait forever, so they
/// are ignored.
pub const SETTLE_JS: &'static str = r#"(async () => {
  if (document.fonts) { try { await document.fonts.ready; } catch {} }
  const near = (img) => {
    const r = img.getBoundingClientRect();
    return r.top < innerHeight * 1.5 && r.bottom > -innerHeight * 0.5;
  };
  await Promise.all(Array.from(document.images)
    .filter(img => !img.complete && near(img))
    .map(img => new Promise(r => {
      img.addEventListener('load', r, { once: true });
      img.addEventListener('error', r, { once: true });
      setTimeout(r, 3000);
    })));
  await new Promise(r => requestAnimationFrame(() => requestAnimationFrame(r)));
  const finite = document.getAnimations().filter(a => {
    try {
      return a.playState === 'running' && a.effect.getTiming().iterations !== Infinity;
    } catch { return false; }
  });
  await Promise.race([
    Promise.all(finite.map(a => a.finished.catch(() => {}))),
    new Promise(r => setTimeout(r, 3000)),
  ]);
  await new Promise(r => requestAnimationFrame(() => requestAnimationFrame(r)));
})()"#;

/// Scrolls step by step to the bottom so that lazy loading fires, then back to the top.
pub const SCROLL_JS: &'static str = r#"(async () => {
  const height = () => Math.max(
    document.body?.scrollHeight ?? 0,
    document.documentElement.scrollHeight
  );
  const step = Math.max(200, window.innerHeight);
  for (let y = 0, guard = 0; y < height() && guard < 500; y += step, guard++) {
    window.scrollTo(0, y);
    await new Promise(r => setTimeout(r, 60));
  }
  window.scrollTo(0, 0);
  await new Promise(r => setTimeout(r, 150));
  await new Promise(r => requestAnimationFrame(() => requestAnimationFrame(r)));
})()"#;

/// Measures the height of the document.
pub const DOC_HEIGHT_JS: &'static str = r#"Math.max(
  document.body?.scrollHeight ?? 0,
  document.documentElement.scrollHeight
)"#;

/// What both waiting scripts start with, up to their deadline.
pub const DEADLINE_JS: &'static str = r#"(async () => {
  const deadline = Date.now() + "#;

/// What stands between the deadline and the selector.
pub const SELECTOR_JS: &'static str = r#";
  const selector = "#;

/// Waits for the selector to match.
pub const WAIT_JS: &'static str = r#";
  const find = () => {
    try { return document.querySelector(selector); }
    catch { throw new Error("invalid selector: " + selector); }
  };
  while (!find()) {
    if (Date.now() >= deadline) throw new Error("selector never appeared: " + selector);
    await new Promise(r => setTimeout(r, 100));
  }
})()"#;

/// Waits for the selector to match and scrolls the match into view.
pub const REVEAL_JS: &'static str = r#";
  const find = () => {
    try { return document.querySelector(selector); }
    catch { throw new Error("invalid selector: " + selector); }
  };
  let element;
  while (!(element = find())) {
    if (Date.now() >= deadline) throw new Error("selector never appeared: " + selector);
    await new Promise(r => setTimeout(r, 100));
  }
  element.scrollIntoView({ block: "center", inline: "center" });
  await new Promise(r => requestAnimationFrame(() => requestAnimationFrame(r)));
})()"#;

/// What the measuring script starts with, up to its selector.
pub const BOUNDS_HEAD_JS: &'static str = r#"(() => {
  const selector = "#;

/// Measures the first match of the selector and the document around it.
pub const BOUNDS_JS: &'static str = r#";
  let element;
  try { element = document.querySelector(selector); }
  catch { throw new Error("invalid selector: " + selector); }
  if (!element) throw new Error("selector disappeared: " + selector);
  const rect = element.getBoundingClientRect();
  if (![rect.x, rect.y, rect.width, rect.height].every(Number.isFinite) ||
      rect.width <= 0 || rect.height <= 0) {
    throw new Error("element has no rendered size: " + selector);
  }
  return {
    x: rect.left + window.scrollX,
    y: rect.top + window.scrollY,
    width: rect.width,
    height: rect.height,
    doc_width: Math.max(
      document.body?.scrollWidth ?? 0,
      document.documentElement.scrollWidth,
      document.documentElement.clientWidth
    ),
    doc_height: Math.max(
      document.body?.scrollHeight ?? 0,
      document.documentElement.scrollHeight,
      document.documentElement.clientHeight
    )
  };
})()"#;

/// The script that waits until a selector matches, for at most `budget_ms`.
pub open spec fn waiting(selector: Seq<char>, budget_ms: nat) -> Seq<char> {
    DEADLINE_JS@ + text::decimal(budget_ms) + SELECTOR_JS@ + outside::json_string(selector)
        + WAIT_JS@
}

/// The script that waits until a selector matches, for at most `budget_ms`, and scrolls to it.
pub open spec fn revealing(selector: Seq<char>, budget_ms: nat) -> Seq<char> {
    DEADLINE_JS@ + text::decimal(budget_ms) + SELECTOR_JS@ + outside::json_string(selector)
        + REVEAL_JS@
}

/// The script that measures the first match of a selector.
pub open spec fn measuring(selector: Seq<char>) -> Seq<char> {
    BOUNDS_HEAD_JS@ + outside::json_string(selector) + BOUNDS_JS@
}

/// The start of both waiting scripts, up to and with the selector.
fn waiting_head(selector: &str, budget_ms: u64) -> (r: String)
    ensures
        r@ == DEADLINE_JS@ + text::decimal(budget_ms as nat) + SELECTOR_JS@
            + outside::json_string(selector@),
{
    let mut script = DEADLINE_JS.to_owned();
    script.append(decimal_text(budget_ms as u128).as_str());
    script.append(SELECTOR_JS);
    script.append(json_text(selector).as_str());
    script
}

/// The script that waits until a selector matches.
pub fn wait_for_js(selector: &str, budget_ms: u64) -> (r: String)
    ensures
        r@ == waiting(selector@, budget_ms as nat),
{
    let mut script = waiting_head(selector, budget_ms);
    script.append(WAIT_JS);
    script
}

/// The script that waits until a selector matches and scrolls to it.
pub fn wait_and_scroll_js(selector: &str, budget_ms: u64) -> (r: String)
    ensures
        r@ == revealing(selector@, budget_ms as nat),
{
    let mut script = waiting_head(selector, budget_ms);
    script.append(REVEAL_JS);
    script
}

/// The script that measures the first match of a selector.
pub fn element_bounds_js(selector: &str) -> (r: String)
    ensures
        r@ == measuring(selector@),
{
    let mut script = BOUNDS_HEAD_JS.to_owned();
    script.append(json_text(selector).as_str());
    script.append(BOUNDS_JS);
    script
}

/// A waiting script holds its budget in decimal and, behind it, its selector as a literal, and
/// ends in what it does with the match.
pub proof fn law_waiting_scripts_hold_their_arguments(selector: Seq<char>, budget_ms: nat)
    ensures
        ({
            let digits = text::decimal(budget_ms);
            let literal = outside::json_string(selector);
            let first = DEADLINE_JS@.len() as int;
            let second = first + digits.len() + SELECTOR_JS@.len();
            &&& text::occurs_at(waiting(selector, budget_ms), digits, first)
            &&& text::occurs_at(revealing(selector, budget_ms), digits, first)
            &&& text::occurs_at(waiting(selector, budget_ms), literal, second)
            &&& text::occurs_at(revealing(selector, budget_ms), literal, second)
            &&& text::occurs_at(
                waiting(selector, budget_ms),
                WAIT_JS@,
                waiting(selector, budget_ms).len() - WAIT_JS@.len(),
            )
            &&& text::occurs_at(
                revealing(selector, budget_ms),
                REVEAL_JS@,
                revealing(selector, budget_ms).len() - REVEAL_JS@.len(),
            )
        }),
{
    let digits = text::decimal(budget_ms);
    let literal = outside::json_string(selector);
    let first = DEADLINE_JS@.len() as int;
    let second = first + digits.len() + SELECTOR_JS@.len();
    let a = waiting(selector, budget_ms);
    let b = revealing(selector, budget_ms);
    assert(a.subrange(first, first + digits.len()) =~= digits);
    assert(b.subrange(first, first + digits.len()) =~= digits);
    assert(a.subrange(second, second + literal.len()) =~= literal);
    assert(b.subrange(second, second + literal.len()) =~= literal);
    assert(a.subrange(a.len() - WAIT_JS@.len(), a.len() as int) =~= WAIT_JS@);
    assert(b.subrange(b.len() - REVEAL_JS@.len(), b.len() as int) =~= REVEAL_JS@);
}

/// The measuring script holds its selector as a literal between its two constant parts.
pub proof fn law_measuring_scripts_hold_their_selector(selector: Seq<char>)
    ensures
        ({
            let literal = outside::json_string(selector);
            let head = BOUNDS_HEAD_JS@;
            &&& measuring(selector).len() == head.len() + literal.len() + BOUNDS_JS@.len()
            &&& text::occurs_at(measuring(selector), head, 0)
            &&& text::occurs_at(measuring(selector), literal, head.len() as int)
            &&& text::occurs_at(measuring(selector), BOUNDS_JS@, (head.len() + literal.len()) as int)
        }),
{
    let literal = outside::json_string(selector);
    let head = BOUNDS_HEAD_JS@;
    let s = measuring(selector);
    assert(s.subrange(0, head.len() as int) =~= head);
    assert(s.subrange(head.len() as int, (head.len() + literal.len()) as int) =~= literal);
    assert(s.subrange((head.len() + literal.len()) as int, s.len() as int) =~= BOUNDS_JS@);
}

} // verus!

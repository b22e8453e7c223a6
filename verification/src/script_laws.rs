//! Laws of the scripts that run inside a page: what each of them waits for, does and gives back.

use crate::scripts::{BOUNDS_JS, DOC_HEIGHT_JS, REVEAL_JS, SCROLL_JS, SETTLE_JS, WAIT_JS};
use crate::text;
use vstd::prelude::*;

verus! {

/// The measuring script looks the selector up once, as the first match in document order, and tells
/// a selector that is none, one that matches nothing and an element without a size apart.  It gives
/// the element's place in the document, not in the window, its size as it is rendered, and the
/// greatest extents that the document has.
pub proof fn law_the_measuring_script_measures_the_first_match()
    ensures
        text::occurs_in(BOUNDS_JS@, r#"element = document.querySelector(selector);"#@),
        text::occurs_in(BOUNDS_JS@, r#"throw new Error("invalid selector: " + selector);"#@),
        text::occurs_in(BOUNDS_JS@, r#"if (!element) throw new Error("selector disappeared: " + selector);"#@),
        text::occurs_in(BOUNDS_JS@, r#"[rect.x, rect.y, rect.width, rect.height].every(Number.isFinite)"#@),
        text::occurs_in(BOUNDS_JS@, r#"rect.width <= 0 || rect.height <= 0"#@),
        text::occurs_in(BOUNDS_JS@, r#"throw new Error("element has no rendered size: " + selector);"#@),
        text::occurs_in(BOUNDS_JS@, r#"const rect = element.getBoundingClientRect();"#@),
        text::occurs_in(BOUNDS_JS@, r#"    x: rect.left + window.scrollX,
    y: rect.top + window.scrollY,
    width: rect.width,
    height: rect.height,
"#@),
        text::occurs_in(BOUNDS_JS@, r#"doc_width: Math.max(
      document.body?.scrollWidth ?? 0,
      document.documentElement.scrollWidth,
      document.documentElement.clientWidth
    )"#@),
        text::occurs_in(BOUNDS_JS@, r#"doc_height: Math.max(
      document.body?.scrollHeight ?? 0,
      document.documentElement.scrollHeight,
      document.documentElement.clientHeight
    )"#@),
{
    let whole = BOUNDS_JS@;
    reveal_strlit(
        r#";
  let element;
  try { element = document.querySelector(selector); }
  catch { throw new Error("invalid selector: " + selector); }
  if (!element) throw new Error("selector disappeared: " + selector);
  const rect = element.getBoundingClientRect();
  if (![rect.x, rect.y, rect.width, rect.height].every(Number.isFinite) ||
      rect.width <= 0 || rect.height <= 0) {
    throw new Error("element has no rendered size: " + selector);
  }
  return {
    x: rect.left + window.scrollX,
    y: rect.top + window.scrollY,
    width: rect.width,
    height: rect.height,
    doc_width: Math.max(
      document.body?.scrollWidth ?? 0,
      document.documentElement.scrollWidth,
      document.documentElement.clientWidth
    ),
    doc_height: Math.max(
      document.body?.scrollHeight ?? 0,
      document.documentElement.scrollHeight,
      document.documentElement.clientHeight
    )
  };
})()"#,
    );
    reveal_strlit(r#"element = document.querySelector(selector);"#);
    assert(whole.subrange(25, 68) =~= r#"element = document.querySelector(selector);"#@);
    assert(text::occurs_at(whole, r#"element = document.querySelector(selector);"#@, 25));
    reveal_strlit(r#"throw new Error("invalid selector: " + selector);"#);
    assert(whole.subrange(81, 130) =~= r#"throw new Error("invalid selector: " + selector);"#@);
    assert(text::occurs_at(whole, r#"throw new Error("invalid selector: " + selector);"#@, 81));
    reveal_strlit(r#"if (!element) throw new Error("selector disappeared: " + selector);"#);
    assert(whole.subrange(135, 202) =~= r#"if (!element) throw new Error("selector disappeared: " + selector);"#@);
    assert(text::occurs_at(whole, r#"if (!element) throw new Error("selector disappeared: " + selector);"#@, 135));
    reveal_strlit(r#"[rect.x, rect.y, rect.width, rect.height].every(Number.isFinite)"#);
    assert(whole.subrange(258, 322) =~= r#"[rect.x, rect.y, rect.width, rect.height].every(Number.isFinite)"#@);
    assert(text::occurs_at(whole, r#"[rect.x, rect.y, rect.width, rect.height].every(Number.isFinite)"#@, 258));
    reveal_strlit(r#"rect.width <= 0 || rect.height <= 0"#);
    assert(whole.subrange(332, 367) =~= r#"rect.width <= 0 || rect.height <= 0"#@);
    assert(text::occurs_at(whole, r#"rect.width <= 0 || rect.height <= 0"#@, 332));
    reveal_strlit(r#"throw new Error("element has no rendered size: " + selector);"#);
    assert(whole.subrange(375, 436) =~= r#"throw new Error("element has no rendered size: " + selector);"#@);
    assert(text::occurs_at(whole, r#"throw new Error("element has no rendered size: " + selector);"#@, 375));
    reveal_strlit(r#"const rect = element.getBoundingClientRect();"#);
    assert(whole.subrange(205, 250) =~= r#"const rect = element.getBoundingClientRect();"#@);
    assert(text::occurs_at(whole, r#"const rect = element.getBoundingClientRect();"#@, 205));
    reveal_strlit(r#"    x: rect.left + window.scrollX,
    y: rect.top + window.scrollY,
    width: rect.width,
    height: rect.height,
"#);
    assert(whole.subrange(452, 569) =~= r#"    x: rect.left + window.scrollX,
    y: rect.top + window.scrollY,
    width: rect.width,
    height: rect.height,
"#@);
    assert(text::occurs_at(whole, r#"    x: rect.left + window.scrollX,
    y: rect.top + window.scrollY,
    width: rect.width,
    height: rect.height,
"#@, 452));
    reveal_strlit(r#"doc_width: Math.max(
      document.body?.scrollWidth ?? 0,
      document.documentElement.scrollWidth,
      document.documentElement.clientWidth
    )"#);
    assert(whole.subrange(573, 725) =~= r#"doc_width: Math.max(
      document.body?.scrollWidth ?? 0,
      document.documentElement.scrollWidth,
      document.documentElement.clientWidth
    )"#@);
    assert(text::occurs_at(whole, r#"doc_width: Math.max(
      document.body?.scrollWidth ?? 0,
      document.documentElement.scrollWidth,
      document.documentElement.clientWidth
    )"#@, 573));
    reveal_strlit(r#"doc_height: Math.max(
      document.body?.scrollHeight ?? 0,
      document.documentElement.scrollHeight,
      document.documentElement.clientHeight
    )"#);
    assert(whole.subrange(731, 887) =~= r#"doc_height: Math.max(
      document.body?.scrollHeight ?? 0,
      document.documentElement.scrollHeight,
      document.documentElement.clientHeight
    )"#@);
    assert(text::occurs_at(whole, r#"doc_height: Math.max(
      document.body?.scrollHeight ?? 0,
      document.documentElement.scrollHeight,
      document.documentElement.clientHeight
    )"#@, 731));
}

/// The waiting script looks for the first match every tenth of a second, ends where there is one,
/// and fails at its deadline or where the selector is none.
pub proof fn law_the_waiting_script_waits_until_its_deadline()
    ensures
        text::occurs_in(WAIT_JS@, r#"return document.querySelector(selector);"#@),
        text::occurs_in(WAIT_JS@, r#"throw new Error("invalid selector: " + selector);"#@),
        text::occurs_in(WAIT_JS@, r#"while (!find()) {
"#@),
        text::occurs_in(WAIT_JS@, r#"if (Date.now() >= deadline) throw new Error("selector never appeared: " + selector);"#@),
        text::occurs_in(WAIT_JS@, r#"await new Promise(r => setTimeout(r, 100));"#@),
{
    let whole = WAIT_JS@;
    reveal_strlit(
        r#";
  const find = () => {
    try { return document.querySelector(selector); }
    catch { throw new Error("invalid selector: " + selector); }
  };
  while (!find()) {
    if (Date.now() >= deadline) throw new Error("selector never appeared: " + selector);
    await new Promise(r => setTimeout(r, 100));
  }
})()"#,
    );
    reveal_strlit(r#"return document.querySelector(selector);"#);
    assert(whole.subrange(35, 75) =~= r#"return document.querySelector(selector);"#@);
    assert(text::occurs_at(whole, r#"return document.querySelector(selector);"#@, 35));
    reveal_strlit(r#"throw new Error("invalid selector: " + selector);"#);
    assert(whole.subrange(90, 139) =~= r#"throw new Error("invalid selector: " + selector);"#@);
    assert(text::occurs_at(whole, r#"throw new Error("invalid selector: " + selector);"#@, 90));
    reveal_strlit(r#"while (!find()) {
"#);
    assert(whole.subrange(149, 167) =~= r#"while (!find()) {
"#@);
    assert(text::occurs_at(whole, r#"while (!find()) {
"#@, 149));
    reveal_strlit(r#"if (Date.now() >= deadline) throw new Error("selector never appeared: " + selector);"#);
    assert(whole.subrange(171, 255) =~= r#"if (Date.now() >= deadline) throw new Error("selector never appeared: " + selector);"#@);
    assert(text::occurs_at(whole, r#"if (Date.now() >= deadline) throw new Error("selector never appeared: " + selector);"#@, 171));
    reveal_strlit(r#"await new Promise(r => setTimeout(r, 100));"#);
    assert(whole.subrange(260, 303) =~= r#"await new Promise(r => setTimeout(r, 100));"#@);
    assert(text::occurs_at(whole, r#"await new Promise(r => setTimeout(r, 100));"#@, 260));
}

/// The revealing script waits as the waiting script does, then scrolls the match to the middle of
/// the window and lets two frames be painted.
pub proof fn law_the_revealing_script_scrolls_to_the_match()
    ensures
        text::occurs_in(REVEAL_JS@, r#"return document.querySelector(selector);"#@),
        text::occurs_in(REVEAL_JS@, r#"throw new Error("invalid selector: " + selector);"#@),
        text::occurs_in(REVEAL_JS@, r#"while (!(element = find())) {
"#@),
        text::occurs_in(REVEAL_JS@, r#"if (Date.now() >= deadline) throw new Error("selector never appeared: " + selector);"#@),
        text::occurs_in(REVEAL_JS@, r#"await new Promise(r => setTimeout(r, 100));"#@),
        text::occurs_in(REVEAL_JS@, r#"element.scrollIntoView({ block: "center", inline: "center" });"#@),
        text::occurs_in(REVEAL_JS@, r#"await new Promise(r => requestAnimationFrame(() => requestAnimationFrame(r)));"#@),
{
    let whole = REVEAL_JS@;
    reveal_strlit(
        r#";
  const find = () => {
    try { return document.querySelector(selector); }
    catch { throw new Error("invalid selector: " + selector); }
  };
  let element;
  while (!(element = find())) {
    if (Date.now() >= deadline) throw new Error("selector never appeared: " + selector);
    await new Promise(r => setTimeout(r, 100));
  }
  element.scrollIntoView({ block: "center", inline: "center" });
  await new Promise(r => requestAnimationFrame(() => requestAnimationFrame(r)));
})()"#,
    );
    reveal_strlit(r#"return document.querySelector(selector);"#);
    assert(whole.subrange(35, 75) =~= r#"return document.querySelector(selector);"#@);
    assert(text::occurs_at(whole, r#"return document.querySelector(selector);"#@, 35));
    reveal_strlit(r#"throw new Error("invalid selector: " + selector);"#);
    assert(whole.subrange(90, 139) =~= r#"throw new Error("invalid selector: " + selector);"#@);
    assert(text::occurs_at(whole, r#"throw new Error("invalid selector: " + selector);"#@, 90));
    reveal_strlit(r#"while (!(element = find())) {
"#);
    assert(whole.subrange(164, 194) =~= r#"while (!(element = find())) {
"#@);
    assert(text::occurs_at(whole, r#"while (!(element = find())) {
"#@, 164));
    reveal_strlit(r#"if (Date.now() >= deadline) throw new Error("selector never appeared: " + selector);"#);
    assert(whole.subrange(198, 282) =~= r#"if (Date.now() >= deadline) throw new Error("selector never appeared: " + selector);"#@);
    assert(text::occurs_at(whole, r#"if (Date.now() >= deadline) throw new Error("selector never appeared: " + selector);"#@, 198));
    reveal_strlit(r#"await new Promise(r => setTimeout(r, 100));"#);
    assert(whole.subrange(287, 330) =~= r#"await new Promise(r => setTimeout(r, 100));"#@);
    assert(text::occurs_at(whole, r#"await new Promise(r => setTimeout(r, 100));"#@, 287));
    reveal_strlit(r#"element.scrollIntoView({ block: "center", inline: "center" });"#);
    assert(whole.subrange(337, 399) =~= r#"element.scrollIntoView({ block: "center", inline: "center" });"#@);
    assert(text::occurs_at(whole, r#"element.scrollIntoView({ block: "center", inline: "center" });"#@, 337));
    reveal_strlit(r#"await new Promise(r => requestAnimationFrame(() => requestAnimationFrame(r)));"#);
    assert(whole.subrange(402, 480) =~= r#"await new Promise(r => requestAnimationFrame(() => requestAnimationFrame(r)));"#@);
    assert(text::occurs_at(whole, r#"await new Promise(r => requestAnimationFrame(() => requestAnimationFrame(r)));"#@, 402));
}

/// The scrolling script goes through the page in steps of a window, 200 pixels at the least and 500
/// times at the most, pauses at each, and ends at the top.
pub proof fn law_scrolling_goes_through_the_page_and_back()
    ensures
        text::occurs_in(SCROLL_JS@, r#"document.body?.scrollHeight ?? 0,
    document.documentElement.scrollHeight"#@),
        text::occurs_in(SCROLL_JS@, r#"const step = Math.max(200, window.innerHeight);"#@),
        text::occurs_in(SCROLL_JS@, r#"for (let y = 0, guard = 0; y < height() && guard < 500; y += step, guard++) {"#@),
        text::occurs_in(SCROLL_JS@, r#"window.scrollTo(0, y);"#@),
        text::occurs_in(SCROLL_JS@, r#"await new Promise(r => setTimeout(r, 60));"#@),
        text::occurs_in(SCROLL_JS@, r#"window.scrollTo(0, 0);
  await new Promise(r => setTimeout(r, 150));"#@),
        text::occurs_in(SCROLL_JS@, r#"await new Promise(r => requestAnimationFrame(() => requestAnimationFrame(r)));
})()"#@),
{
    let whole = SCROLL_JS@;
    reveal_strlit(
        r#"(async () => {
  const height = () => Math.max(
    document.body?.scrollHeight ?? 0,
    document.documentElement.scrollHeight
  );
  const step = Math.max(200, window.innerHeight);
  for (let y = 0, guard = 0; y < height() && guard < 500; y += step, guard++) {
    window.scrollTo(0, y);
    await new Promise(r => setTimeout(r, 60));
  }
  window.scrollTo(0, 0);
  await new Promise(r => setTimeout(r, 150));
  await new Promise(r => requestAnimationFrame(() => requestAnimationFrame(r)));
})()"#,
    );
    reveal_strlit(r#"document.body?.scrollHeight ?? 0,
    document.documentElement.scrollHeight"#);
    assert(whole.subrange(52, 127) =~= r#"document.body?.scrollHeight ?? 0,
    document.documentElement.scrollHeight"#@);
    assert(text::occurs_at(whole, r#"document.body?.scrollHeight ?? 0,
    document.documentElement.scrollHeight"#@, 52));
    reveal_strlit(r#"const step = Math.max(200, window.innerHeight);"#);
    assert(whole.subrange(135, 182) =~= r#"const step = Math.max(200, window.innerHeight);"#@);
    assert(text::occurs_at(whole, r#"const step = Math.max(200, window.innerHeight);"#@, 135));
    reveal_strlit(r#"for (let y = 0, guard = 0; y < height() && guard < 500; y += step, guard++) {"#);
    assert(whole.subrange(185, 262) =~= r#"for (let y = 0, guard = 0; y < height() && guard < 500; y += step, guard++) {"#@);
    assert(text::occurs_at(whole, r#"for (let y = 0, guard = 0; y < height() && guard < 500; y += step, guard++) {"#@, 185));
    reveal_strlit(r#"window.scrollTo(0, y);"#);
    assert(whole.subrange(267, 289) =~= r#"window.scrollTo(0, y);"#@);
    assert(text::occurs_at(whole, r#"window.scrollTo(0, y);"#@, 267));
    reveal_strlit(r#"await new Promise(r => setTimeout(r, 60));"#);
    assert(whole.subrange(294, 336) =~= r#"await new Promise(r => setTimeout(r, 60));"#@);
    assert(text::occurs_at(whole, r#"await new Promise(r => setTimeout(r, 60));"#@, 294));
    reveal_strlit(r#"window.scrollTo(0, 0);
  await new Promise(r => setTimeout(r, 150));"#);
    assert(whole.subrange(343, 411) =~= r#"window.scrollTo(0, 0);
  await new Promise(r => setTimeout(r, 150));"#@);
    assert(text::occurs_at(whole, r#"window.scrollTo(0, 0);
  await new Promise(r => setTimeout(r, 150));"#@, 343));
    reveal_strlit(r#"await new Promise(r => requestAnimationFrame(() => requestAnimationFrame(r)));
})()"#);
    assert(whole.subrange(414, 497) =~= r#"await new Promise(r => requestAnimationFrame(() => requestAnimationFrame(r)));
})()"#@);
    assert(text::occurs_at(whole, r#"await new Promise(r => requestAnimationFrame(() => requestAnimationFrame(r)));
})()"#@, 414));
}

/// The settling script waits for fonts, for images near the window that are still loading, loaded
/// or failed, three seconds at the most, for running animations that end, three seconds at the
/// most, and lets two frames be painted.
pub proof fn law_settling_waits_for_what_shows()
    ensures
        text::occurs_in(SETTLE_JS@, r#"await document.fonts.ready;"#@),
        text::occurs_in(SETTLE_JS@, r#"r.top < innerHeight * 1.5 && r.bottom > -innerHeight * 0.5;"#@),
        text::occurs_in(SETTLE_JS@, r#".filter(img => !img.complete && near(img))"#@),
        text::occurs_in(SETTLE_JS@, r#"img.addEventListener('load', r, { once: true });"#@),
        text::occurs_in(SETTLE_JS@, r#"img.addEventListener('error', r, { once: true });"#@),
        text::occurs_in(SETTLE_JS@, r#"setTimeout(r, 3000);
    })));"#@),
        text::occurs_in(SETTLE_JS@, r#"document.getAnimations().filter("#@),
        text::occurs_in(SETTLE_JS@, r#"a.playState === 'running' && a.effect.getTiming().iterations !== Infinity;"#@),
        text::occurs_in(SETTLE_JS@, r#"Promise.all(finite.map(a => a.finished.catch(() => {}))),
    new Promise(r => setTimeout(r, 3000)),"#@),
        text::occurs_in(SETTLE_JS@, r#"await new Promise(r => requestAnimationFrame(() => requestAnimationFrame(r)));
})()"#@),
{
    let whole = SETTLE_JS@;
    reveal_strlit(
        r#"(async () => {
  if (document.fonts) { try { await document.fonts.ready; } catch {} }
  const near = (img) => {
    const r = img.getBoundingClientRect();
    return r.top < innerHeight * 1.5 && r.bottom > -innerHeight * 0.5;
  };
  await Promise.all(Array.from(document.images)
    .filter(img => !img.complete && near(img))
    .map(img => new Promise(r => {
      img.addEventListener('load', r, { once: true });
      img.addEventListener('error', r, { once: true });
      setTimeout(r, 3000);
    })));
  await new Promise(r => requestAnimationFrame(() => requestAnimationFrame(r)));
  const finite = document.getAnimations().filter(a => {
    try {
      return a.playState === 'running' && a.effect.getTiming().iterations !== Infinity;
    } catch { return false; }
  });
  await Promise.race([
    Promise.all(finite.map(a => a.finished.catch(() => {}))),
    new Promise(r => setTimeout(r, 3000)),
  ]);
  await new Promise(r => requestAnimationFrame(() => requestAnimationFrame(r)));
})()"#,
    );
    reveal_strlit(r#"await document.fonts.ready;"#);
    assert(whole.subrange(45, 72) =~= r#"await document.fonts.ready;"#@);
    assert(text::occurs_at(whole, r#"await document.fonts.ready;"#@, 45));
    reveal_strlit(r#"r.top < innerHeight * 1.5 && r.bottom > -innerHeight * 0.5;"#);
    assert(whole.subrange(166, 225) =~= r#"r.top < innerHeight * 1.5 && r.bottom > -innerHeight * 0.5;"#@);
    assert(text::occurs_at(whole, r#"r.top < innerHeight * 1.5 && r.bottom > -innerHeight * 0.5;"#@, 166));
    reveal_strlit(r#".filter(img => !img.complete && near(img))"#);
    assert(whole.subrange(283, 325) =~= r#".filter(img => !img.complete && near(img))"#@);
    assert(text::occurs_at(whole, r#".filter(img => !img.complete && near(img))"#@, 283));
    reveal_strlit(r#"img.addEventListener('load', r, { once: true });"#);
    assert(whole.subrange(367, 415) =~= r#"img.addEventListener('load', r, { once: true });"#@);
    assert(text::occurs_at(whole, r#"img.addEventListener('load', r, { once: true });"#@, 367));
    reveal_strlit(r#"img.addEventListener('error', r, { once: true });"#);
    assert(whole.subrange(422, 471) =~= r#"img.addEventListener('error', r, { once: true });"#@);
    assert(text::occurs_at(whole, r#"img.addEventListener('error', r, { once: true });"#@, 422));
    reveal_strlit(r#"setTimeout(r, 3000);
    })));"#);
    assert(whole.subrange(478, 508) =~= r#"setTimeout(r, 3000);
    })));"#@);
    assert(text::occurs_at(whole, r#"setTimeout(r, 3000);
    })));"#@, 478));
    reveal_strlit(r#"document.getAnimations().filter("#);
    assert(whole.subrange(607, 639) =~= r#"document.getAnimations().filter("#@);
    assert(text::occurs_at(whole, r#"document.getAnimations().filter("#@, 607));
    reveal_strlit(r#"a.playState === 'running' && a.effect.getTiming().iterations !== Infinity;"#);
    assert(whole.subrange(669, 743) =~= r#"a.playState === 'running' && a.effect.getTiming().iterations !== Infinity;"#@);
    assert(text::occurs_at(whole, r#"a.playState === 'running' && a.effect.getTiming().iterations !== Infinity;"#@, 669));
    reveal_strlit(r#"Promise.all(finite.map(a => a.finished.catch(() => {}))),
    new Promise(r => setTimeout(r, 3000)),"#);
    assert(whole.subrange(807, 907) =~= r#"Promise.all(finite.map(a => a.finished.catch(() => {}))),
    new Promise(r => setTimeout(r, 3000)),"#@);
    assert(text::occurs_at(whole, r#"Promise.all(finite.map(a => a.finished.catch(() => {}))),
    new Promise(r => setTimeout(r, 3000)),"#@, 807));
    reveal_strlit(r#"await new Promise(r => requestAnimationFrame(() => requestAnimationFrame(r)));
})()"#);
    assert(whole.subrange(916, 999) =~= r#"await new Promise(r => requestAnimationFrame(() => requestAnimationFrame(r)));
})()"#@);
    assert(text::occurs_at(whole, r#"await new Promise(r => requestAnimationFrame(() => requestAnimationFrame(r)));
})()"#@, 916));
}

/// The height of a page is the greater of those of its body and of its root.
pub proof fn law_the_height_is_that_of_the_whole_document()
    ensures
        text::occurs_in(DOC_HEIGHT_JS@, r#"Math.max("#@),
        text::occurs_in(DOC_HEIGHT_JS@, r#"document.body?.scrollHeight ?? 0,"#@),
        text::occurs_in(DOC_HEIGHT_JS@, r#"document.documentElement.scrollHeight
)"#@),
{
    let whole = DOC_HEIGHT_JS@;
    reveal_strlit(
        r#"Math.max(
  document.body?.scrollHeight ?? 0,
  document.documentElement.scrollHeight
)"#,
    );
    reveal_strlit(r#"Math.max("#);
    assert(whole.subrange(0, 9) =~= r#"Math.max("#@);
    assert(text::occurs_at(whole, r#"Math.max("#@, 0));
    reveal_strlit(r#"document.body?.scrollHeight ?? 0,"#);
    assert(whole.subrange(12, 45) =~= r#"document.body?.scrollHeight ?? 0,"#@);
    assert(text::occurs_at(whole, r#"document.body?.scrollHeight ?? 0,"#@, 12));
    reveal_strlit(r#"document.documentElement.scrollHeight
)"#);
    assert(whole.subrange(48, 87) =~= r#"document.documentElement.scrollHeight
)"#@);
    assert(text::occurs_at(whole, r#"document.documentElement.scrollHeight
)"#@, 48));
}

} // verus!

//! The code generator: from the document model to one HTML document.
//!
//! The document holds the title, one section for each page with the markup of
//! its questions, the controls, and one script with the page count, the table
//! of the scripts of each page, and the fixed runtime script.

use vstd::prelude::*;
use crate::items::choose_item::{choose_html, choose_script};
use crate::items::common::{escape_html_chars, html_text, js_literal, to_js_string};
use crate::items::css::css_html;
use crate::items::insert::insert_html;
use crate::text::convert::{chars_of, push_all, push_str, same_chars, slice_of, text_of};
use crate::text::lines::{join, join_from, lemma_texts_push, lines, texts};
use crate::text::number::{decimal, decimal_chars};
use crate::transcompiler::{
    compile_source, entries, parse, questions, CompileError, Entry, EntryView, Question,
    QuestionView,
};

verus! {

/// The title of a document that has neither a title nor a page.
pub const FALLBACK_TITLE: &'static str = "Survey";

/// The document from its start to the title in its head.
pub const DOC_OPEN: &'static str = "<!doctype html>\n<html lang=\"en\"><head><meta charset=\"utf-8\"><meta name=\"viewport\" content=\"width=device-width,initial-scale=1\">\n<title>";

/// What stands between the title in the head and the style sheet.
pub const DOC_STYLE_OPEN: &'static str = "</title>\n<style>\n";

/// The style sheet of every document. Only the active page is shown.
pub const STYLE_SHEET: &'static str = "body{font-family: system-ui, -apple-system, Roboto, 'Segoe UI', Arial; padding:20px; max-width:900px; margin:auto;}
.page{display:none;}
.page.active{display:block;}
.controls{display:flex;justify-content:space-between;margin-top:18px;}
.question{margin:12px 0;padding:10px;border-radius:8px;background:#f8f8f8;}
fieldset.question{border:1px solid #ddd;padding:10px;border-radius:6px;}
.text-block{margin:8px 0;}
.page-indicator{text-align:center;margin-top:12px;color:#666}
button:disabled{opacity:.5;cursor:not-allowed}
";

/// What stands between the style sheet and the heading of the document.
pub const DOC_HEADING_OPEN: &'static str = "</style>\n</head><body>\n<h1>";

/// What stands between the heading of the document and its sections.
pub const DOC_PAGES_OPEN: &'static str = "</h1>\n<div id=\"pages\">\n";

/// What stands between the sections and the page count: the buttons to move
/// between pages, the button to save the answers, the page indicator, and the
/// start of the script.
pub const DOC_CONTROLS: &'static str = "</div>
<div class=\"controls\">
<div><button id=\"prevBtn\">Previous</button></div>
<div><button id=\"nextBtn\">Next</button></div>
</div>
<div id=\"saveBtnContainer\" style=\"text-align:center; margin-top:20px; display:none;\">
<button id=\"saveBtn\">Save Answers</button>
</div>
<div class=\"page-indicator\" id=\"pageIndicator\"></div>
<script>
const PAGE_COUNT = ";

/// What stands between the page count and the script table.
pub const DOC_TABLE_OPEN: &'static str = ";\nconst PAGE_SCRIPTS = [";

/// What closes the script table.
pub const DOC_TABLE_CLOSE: &'static str = "];\n";

/// The end of the document.
pub const DOC_CLOSE: &'static str = "</script>\n</body></html>\n";

/// What opens the section of a page; its index follows.
pub const SECTION_OPEN: &'static str = "<section class=\"page\" data-index=\"";

/// What closes the opening tag of a section.
pub const SECTION_INDEX_END: &'static str = "\">\n";

/// What opens the heading of a page.
pub const HEADING_OPEN: &'static str = "<h2>";

/// What closes the heading of a page.
pub const HEADING_CLOSE: &'static str = "</h2>\n";

/// What closes the section of a page.
pub const SECTION_CLOSE: &'static str = "</section>\n";

/// What opens a script record; the script follows as a string literal.
pub const RECORD_OPEN: &'static str = "{\"script\":";

/// What closes a script record.
pub const RECORD_CLOSE: &'static str = "}";

/// The runtime script, first part: collecting the answers. All tracked inputs of
/// the document are read into the answer map. A group of checkboxes gives the
/// list of the checked values, a group of radio buttons gives the checked
/// value, any other group gives its last value that is not empty; single
/// values become numbers where they read as finite numbers.
pub const RUNTIME_ANSWERS: &'static str = "document.addEventListener(\"DOMContentLoaded\", () => {
    // tiny runtime API for f { ... } scripts
    window.SQE = window.SQE || {};
    const SQE = window.SQE;
    
    // Collect answers from DOM inputs marked with data-sqe-key.
    // This lets user scripts read window.SQE_ANSWERS immediately without needing to manually gather values.
    // Improvements: support checkbox groups as arrays, robustly coerce numbers, and debug-log collected values.
    SQE.collectAnswers = SQE.collectAnswers || function() {
      window.SQE_ANSWERS = window.SQE_ANSWERS || {};
      const els = document.querySelectorAll(\"[data-sqe-key]\");
      const seen = new Set();
      els.forEach(el => {
        const key = el.getAttribute(\"data-sqe-key\");
        if (!key || seen.has(key)) return;
        seen.add(key);
        const group = Array.from(document.querySelectorAll('[data-sqe-key=\"'+key+'\"]'));
        // Determine element kinds in the group
        const types = new Set(group.map(g => (g.type || g.tagName || '').toLowerCase()));
        // collect values
        if (types.has('checkbox')) {
          // collect array of checked values
          const vals = [];
          group.forEach(g => {
            try {
              if (g.checked) {
                const v = g.getAttribute('data-sqe-value') ?? g.value;
                vals.push(v);
              }
            } catch(e){}
          });
          window.SQE_ANSWERS[key] = vals;
          console.debug(\"[SQE] collectAnswers:\", key, \"=\", vals);
        } else if (types.has('radio')) {
          // single value
          let val = null;
          group.forEach(g => { try { if (g.checked) val = g.getAttribute('data-sqe-value') ?? g.value; } catch(e){} });
          const num = Number(val);
          const final = (val === null) ? null : (Number.isFinite(num) && val !== '') ? num : val;
          window.SQE_ANSWERS[key] = final;
          console.debug(\"[SQE] collectAnswers:\", key, \"=\", final);
        } else {
          // fall back to last non-empty value in group (e.g., text inputs)
          let val = null;
          group.forEach(g => { try { if (typeof g.value !== 'undefined' && g.value !== '') val = g.value; } catch(e){} });
          const num = Number(val);
          const final = (val === null) ? null : (Number.isFinite(num) && val !== '') ? num : val;
          window.SQE_ANSWERS[key] = final;
          console.debug(\"[SQE] collectAnswers:\", key, \"=\", final);
        }
      });
    };
    
";

/// The runtime script, second part: running the scripts of all pages again, a
/// short while after the last change of any tracked input.
pub const RUNTIME_RERUN: &'static str = "    // Debounced runner to reduce excessive runs on rapid input events
    let _sqeRunTimer = null;
    function runAllFunctionsDebounced() {
      if (_sqeRunTimer) clearTimeout(_sqeRunTimer);
      _sqeRunTimer = setTimeout(() => { _sqeRunTimer = null; runAllFunctions(); }, 30);
    }
    
    // Automatically update answers when inputs change or when custom sqe:answer events are dispatched.
    // When answers change we re-run all function blocks (f { ... }) across all pages so
    // function placeholders update immediately and stay correct even when navigating back/forward.
    function runAllFunctions() {
      try {
        for (let pi = 0; pi < PAGE_SCRIPTS.length; pi++) {
          const scriptsForPage = PAGE_SCRIPTS[pi];
          if (scriptsForPage && scriptsForPage.length > 0) {
            runScriptsForPage(pi, scriptsForPage);
          }
        }
      } catch (e) {
        // don't let a failure block other handlers
        console.error(\"Error running all page functions\", e);
      }
    }
    // listen for a wider set of events (input + change + explicit sqe:answer)
    document.addEventListener('input', function() { try { SQE.collectAnswers(); runAllFunctionsDebounced(); } catch(e){} }, true);
    document.addEventListener('change', function() { try { SQE.collectAnswers(); runAllFunctionsDebounced(); } catch(e){} }, true);
    document.addEventListener('sqe:answer', function() { try { SQE.collectAnswers(); runAllFunctionsDebounced(); } catch(e){} });
    
";

/// The runtime script, third part: what page scripts can call to insert text
/// or markup into the active page and to read or set an answer.
pub const RUNTIME_API: &'static str = "    // insert plain text as a .text-block (escaped by using textContent)
    SQE.insert = SQE.insert || function(text) {
        const page = document.querySelector(\".page.active\");
        if (!page) return null;
        const div = document.createElement(\"div\");
        div.className = \"text-block\";
        div.textContent = String(text);
        page.appendChild(div);
        return div;
    };
    
    // insert raw HTML (use with care)
    SQE.insertHTML = SQE.insertHTML || function(html) {
        const page = document.querySelector(\".page.active\");
        if (!page) return null;
        const div = document.createElement(\"div\");
        div.className = \"text-block\";
        div.innerHTML = String(html);
        page.appendChild(div);
        return div;
    };
    
    SQE.getAnswer = SQE.getAnswer || function(key) {
        return (window.SQE_ANSWERS || {})[key];
    };
    
    SQE.setAnswer = SQE.setAnswer || function(key, val) {
        window.SQE_ANSWERS = window.SQE_ANSWERS || {};
        window.SQE_ANSWERS[key] = val;
        // dispatch the same event that choice-rendered inputs use
        document.dispatchEvent(new CustomEvent('sqe:answer', { detail: { id: key, value: val } }));
    };
    
";

/// The runtime script, fourth part: running the scripts of one page in order.
/// Each script runs as an asynchronous unit of its own, and what goes wrong in
/// one is logged and stops neither the others nor the navigation. The value
/// that a script with a placeholder completes with is shown there.
pub const RUNTIME_SCRIPTS: &'static str = "    const pages = Array.from(document.querySelectorAll(\".page\"));
    const prevBtn = document.getElementById(\"prevBtn\");
    const nextBtn = document.getElementById(\"nextBtn\");
    const pageIndicator = document.getElementById(\"pageIndicator\");
    
    let currentIndex = 0;
    const ran = new Array(PAGE_COUNT).fill(false);
    
    // Run all scripts for a page (each script is an object { id: \"...\", script: \"...\" })
    function runScriptsForPage(idx, scriptsArray) {
        if (!scriptsArray || !Array.isArray(scriptsArray) || scriptsArray.length === 0) return;
        try {
            // Ensure latest answers are collected before running page scripts.
            try { if (typeof SQE.collectAnswers === 'function') SQE.collectAnswers(); } catch(e) {}
 
            scriptsArray.forEach(s => {
                try {
                    if (!s || typeof s !== 'object') return;
                    const id = s.id || null;
                    const scriptText = s.script;
                    if (!scriptText) return;
                    // Guard: avoid executing empty scripts
                    if (!String(scriptText).trim()) return;
 
                    // Logging: show which script is about to run (trim for brevity)
                    try { console.debug(\"[SQE] runScriptsForPage: page\", idx, \"id\", id, \"scriptSnippet\", String(scriptText).slice(0,120)); } catch(e){}
 
                    if (id) {
                        // function block with a placeholder target
                        const selector = '[data-sqe-fn=\"'+String(id).replace(/\"/g,'\\\\\"')+'\"]';
                        const target = document.querySelector(selector);
                        if (!target) return;
                        // Clear previous output in the placeholder
                        target.innerHTML = '';
 
                        let exec;
                        try {
                            exec = new Function('return (async function(){\\n' + scriptText + '\\n})()')();
                        } catch(e) {
                            console.error(\"Error constructing function for\", id, e);
                            return;
                        }
 
                        const handleResult = (res) => {
                            try {
                                if (res === null || typeof res === 'undefined') {
                                    // nothing to render
                                    return;
                                } else if (typeof res === 'string' || typeof res === 'number' || typeof res === 'boolean') {
                                    const d = document.createElement('div');
                                    d.className = 'text-block';
                                    d.textContent = String(res);
                                    target.appendChild(d);
                                } else if (res instanceof Node) {
                                    target.appendChild(res);
                                } else if (Array.isArray(res)) {
                                    res.forEach(item => {
                                        if (typeof item === 'string' || typeof item === 'number' || typeof item === 'boolean') {
                                            const d = document.createElement('div');
                                            d.className = 'text-block';
                                            d.textContent = String(item);
                                            target.appendChild(d);
                                        } else if (item instanceof Node) {
                                            target.appendChild(item);
                                        } else {
                                            // fallback: stringify
                                            const d = document.createElement('pre');
                                            d.className = 'text-block';
                                            d.textContent = JSON.stringify(item, null, 2);
                                            target.appendChild(d);
                                        }
                                    });
                                } else {
                                    // object or other: stringify to pre
                                    const d = document.createElement('pre');
                                    d.className = 'text-block';
                                    d.textContent = JSON.stringify(res, null, 2);
                                    target.appendChild(d);
                                }
                            } catch (e) {
                                console.error(\"Error handling script result for function\", id, e);
                            }
                        };
 
                        if (exec && typeof exec.then === 'function') {
                            exec.then(handleResult).catch(e => { console.error(\"Error running function\", id, e); });
                        } else {
                            handleResult(exec);
                        }
                    } else {
                        // setup/side-effect script (no placeholder) â€” execute but ignore return value
                        try {
                            const exec = new Function('return (async function(){\\n' + scriptText + '\\n})()')();
                            if (exec && typeof exec.then === 'function') {
                                exec.catch(e => { console.error(\"Error running setup script\", e); });
                            }
                        } catch (e) {
                            console.error(\"Error executing setup script\", e);
                        }
                    }
                } catch(e){
                    console.error(\"Error executing script object\", e);
                }
            });
        } catch (e) {
            console.error(\"Error running page scripts for page\", idx + 1, e);
        }
    }
    
";

/// The runtime script, fifth part: showing a page. The index is kept within
/// the pages, the buttons at the first and the last page are disabled, and the
/// scripts of the page run on every entry.
pub const RUNTIME_PAGES: &'static str = "    function showPage(idx) {
        if (idx < 0) idx = 0;
        if (idx >= PAGE_COUNT) idx = PAGE_COUNT - 1;
        currentIndex = idx;
 
        pages.forEach((p, i) => {
            if (i === idx) {
                p.classList.add(\"active\");
                p.style.display = \"\";
            } else {
                p.classList.remove(\"active\");
                p.style.display = \"none\";
            }
        });
 
        if (prevBtn) prevBtn.disabled = (idx === 0);
        if (nextBtn) nextBtn.disabled = (idx === PAGE_COUNT - 1);
        if (pageIndicator) pageIndicator.textContent = \"Page \" + (idx + 1) + \" of \" + PAGE_COUNT;
        const saveContainer = document.getElementById(\"saveBtnContainer\");
        if (saveContainer) {
            if (idx === PAGE_COUNT - 1) {
                saveContainer.style.display = \"block\";
            } else {
                saveContainer.style.display = \"none\";
            }
        }
 
        try {
            const scriptsForPage = PAGE_SCRIPTS[idx];
            if (scriptsForPage && scriptsForPage.length > 0) {
                runScriptsForPage(idx, scriptsForPage);
                ran[idx] = true;
            }
        } catch (e) {
            console.error(\"Error running page scripts for page\", idx + 1, e);
        }
    }
 
    if (prevBtn) {
        prevBtn.addEventListener(\"click\", () => { showPage(currentIndex - 1); });
    }
    if (nextBtn) {
        nextBtn.addEventListener(\"click\", () => { showPage(currentIndex + 1); });
    }
 
    showPage(0);
});
";

/// The runtime script, last part: saving the answer map as a file.
pub const RUNTIME_SAVE: &'static str = "
document.addEventListener(\"DOMContentLoaded\", () => {
    const saveBtn = document.getElementById(\"saveBtn\");
    if (saveBtn) {
        saveBtn.addEventListener(\"click\", () => {
            const data = JSON.stringify(window.SQE_ANSWERS || {}, null, 2);
            const blob = new Blob([data], { type: \"application/json\" });
            const url = URL.createObjectURL(blob);
            const a = document.createElement(\"a\");
            a.href = url;
            a.download = \"answers.json\";
            document.body.appendChild(a);
            a.click();
            document.body.removeChild(a);
            URL.revokeObjectURL(url);
        });
    }
});

";

/// A page of the document.
pub struct PageView {
    pub title: Seq<char>,
    pub content: Seq<QuestionView>,
}

/// The pages among the entries, in source order. Entries of other kinds take
/// no place among them.
pub open spec fn pages_of(es: Seq<EntryView>) -> Seq<PageView>
    decreases es.len(),
{
    if es.len() == 0 {
        Seq::empty()
    } else {
        match es.last() {
            EntryView::Page { title, content } => pages_of(es.drop_last()).push(
                PageView { title, content },
            ),
            _ => pages_of(es.drop_last()),
        }
    }
}

/// The title that the entries give the document themselves: that of the last
/// title entry, if there is one.
pub open spec fn explicit_title(es: Seq<EntryView>) -> Option<Seq<char>>
    decreases es.len(),
{
    if es.len() == 0 {
        None
    } else {
        match es.last() {
            EntryView::DocTitle(t) => Some(t),
            _ => explicit_title(es.drop_last()),
        }
    }
}

/// The title of the document: the explicit one, else the title of the first
/// page, else a fixed one.
pub open spec fn document_title(es: Seq<EntryView>) -> Seq<char> {
    match explicit_title(es) {
        Some(t) => t,
        None => if pages_of(es).len() > 0 {
            pages_of(es)[0].title
        } else {
            FALLBACK_TITLE@
        },
    }
}

/// Whether page `i` shows its own heading. Only the first page can do
/// without, and only where the document has an explicit title that is the
/// title of that page.
pub open spec fn shows_heading(i: nat, title: Seq<char>, explicit: Option<Seq<char>>) -> bool {
    !(i == 0 && explicit == Some(title))
}

/// The record of one script in the table of a page.
pub open spec fn script_record(js: Seq<char>) -> Seq<char> {
    RECORD_OPEN@ + js_literal(js) + RECORD_CLOSE@
}

/// What the questions of a page have given so far.
pub struct Rendered {
    /// The markup of the questions, each fragment followed by a line feed.
    pub html: Seq<char>,
    /// The script records of the page, in source order.
    pub records: Seq<Seq<char>>,
}

/// `r` with the question `q` rendered after it, where `q` is question
/// `index` of page `page`: its position among all the questions of the page,
/// counted from zero, whatever their kinds.
pub open spec fn render_question(r: Rendered, page: nat, index: nat, q: QuestionView) -> Rendered {
    match q {
        QuestionView::Insert(text) => Rendered { html: r.html + insert_html(text).push('\n'), ..r },
        QuestionView::Choose(c) => Rendered {
            html: r.html + choose_html(c, page, index).push('\n'),
            records: r.records.push(script_record(choose_script(c, page, index))),
        },
        QuestionView::Html(html) => Rendered { html: r.html + html.push('\n'), ..r },
        QuestionView::Css(css) => Rendered { html: r.html + css_html(css).push('\n'), ..r },
        QuestionView::Js(js) => Rendered { records: r.records.push(script_record(js)), ..r },
    }
}

/// The questions `qs` of page `page`, rendered in order, each under its
/// position in `qs`.
pub open spec fn render_questions(page: nat, qs: Seq<QuestionView>) -> Rendered
    decreases qs.len(),
{
    if qs.len() == 0 {
        Rendered { html: Seq::empty(), records: Seq::empty() }
    } else {
        render_question(
            render_questions(page, qs.drop_last()),
            page,
            (qs.len() - 1) as nat,
            qs.last(),
        )
    }
}

/// The section of page `i`: its index, its heading where it shows one, and
/// the markup of its questions.
pub open spec fn section_html(i: nat, title: Seq<char>, heading: bool, body: Seq<char>) -> Seq<
    char,
> {
    SECTION_OPEN@ + decimal(i) + SECTION_INDEX_END@ + (if heading {
        HEADING_OPEN@ + html_text(title) + HEADING_CLOSE@
    } else {
        Seq::empty()
    }) + body + SECTION_CLOSE@
}

/// The row of a page in the script table.
pub open spec fn script_row(records: Seq<Seq<char>>) -> Seq<char> {
    seq!['['] + join(records, seq![',']) + seq![']']
}

/// What the pages of a document give.
pub struct Pages {
    /// The sections, in order.
    pub html: Seq<char>,
    /// The rows of the script table, one for each page.
    pub rows: Seq<Seq<char>>,
}

/// The pages `ps`, each rendered under its position among them.
pub open spec fn render_pages(ps: Seq<PageView>, explicit: Option<Seq<char>>) -> Pages
    decreases ps.len(),
{
    if ps.len() == 0 {
        Pages { html: Seq::empty(), rows: Seq::empty() }
    } else {
        let head = render_pages(ps.drop_last(), explicit);
        let i = (ps.len() - 1) as nat;
        let r = render_questions(i, ps.last().content);
        Pages {
            html: head.html + section_html(
                i,
                ps.last().title,
                shows_heading(i, ps.last().title, explicit),
                r.html,
            ),
            rows: head.rows.push(script_row(r.records)),
        }
    }
}

/// The fixed script that runs every document.
pub open spec fn runtime_script() -> Seq<char> {
    RUNTIME_ANSWERS@ + RUNTIME_RERUN@ + RUNTIME_API@ + RUNTIME_SCRIPTS@ + RUNTIME_PAGES@
        + RUNTIME_SAVE@
}

/// The document for the entries `es`: one self-contained HTML text with the
/// title, the sections of the pages, the controls, the page count, the script
/// table and the runtime script.
pub open spec fn document(es: Seq<EntryView>) -> Seq<char> {
    let pages = render_pages(pages_of(es), explicit_title(es));
    DOC_OPEN@ + html_text(document_title(es)) + DOC_STYLE_OPEN@ + STYLE_SHEET@ + DOC_HEADING_OPEN@
        + html_text(document_title(es)) + DOC_PAGES_OPEN@ + pages.html + DOC_CONTROLS@ + decimal(
        pages_of(es).len(),
    ) + DOC_TABLE_OPEN@ + join(pages.rows, seq![',']) + DOC_TABLE_CLOSE@ + runtime_script()
        + DOC_CLOSE@
}

/// Every page has one row in the script table; rows and sections follow the
/// order of the pages.
pub proof fn lemma_one_row_per_page(ps: Seq<PageView>, explicit: Option<Seq<char>>)
    ensures
        render_pages(ps, explicit).rows.len() == ps.len(),
        forall|i: int|
            0 <= i < ps.len() ==> #[trigger] render_pages(ps, explicit).rows[i] == script_row(
                render_questions(i as nat, ps[i].content).records,
            ),
    decreases ps.len(),
{
    if ps.len() > 0 {
        lemma_one_row_per_page(ps.drop_last(), explicit);
    }
}

/// The script records of a page follow the source order of its questions
/// that bear a script: a question adds at most one record, at the end. A
/// single-answer question is numbered by its position in the page, so a
/// question of any kind before it moves its number.
pub proof fn lemma_records_in_order(page: nat, qs: Seq<QuestionView>, q: QuestionView)
    ensures
        render_questions(page, qs.push(q)).records == match q {
            QuestionView::Choose(c) => render_questions(page, qs).records.push(
                script_record(choose_script(c, page, qs.len())),
            ),
            QuestionView::Js(js) => render_questions(page, qs).records.push(script_record(js)),
            _ => render_questions(page, qs).records,
        },
{
    assert(qs.push(q).drop_last() =~= qs);
}

/// Entries that are no pages take no place among the pages: the pages of a
/// document are those of its page entries alone.
pub proof fn lemma_pages_skip_other_entries(es: Seq<EntryView>, e: EntryView)
    requires
        !(e is Page),
    ensures
        pages_of(es.push(e)) == pages_of(es),
{
    assert(es.push(e).drop_last() =~= es);
}

/// The last title entry gives the document its title.
pub proof fn lemma_last_title_wins(es: Seq<EntryView>, t: Seq<char>, rest: Seq<EntryView>)
    requires
        forall|i: int| 0 <= i < rest.len() ==> !(#[trigger] rest[i] is DocTitle),
    ensures
        explicit_title(es.push(EntryView::DocTitle(t)) + rest) == Some(t),
        document_title(es.push(EntryView::DocTitle(t)) + rest) == t,
    decreases rest.len(),
{
    let all = es.push(EntryView::DocTitle(t)) + rest;
    if rest.len() == 0 {
        assert(all =~= es.push(EntryView::DocTitle(t)));
        assert(all.last() == EntryView::DocTitle(t));
    } else {
        assert(all.drop_last() =~= es.push(EntryView::DocTitle(t)) + rest.drop_last());
        assert(all.last() == rest[rest.len() - 1]);
        assert forall|i: int| 0 <= i < rest.drop_last().len() implies !(
        #[trigger] rest.drop_last()[i] is DocTitle) by {
            assert(rest.drop_last()[i] == rest[i]);
        }
        lemma_last_title_wins(es, t, rest.drop_last());
    }
}

/// The explicit title among `ast`.
fn explicit_title_of(ast: &[Entry]) -> (r: Option<Vec<char>>)
    ensures
        match r {
            Some(t) => explicit_title(entries(ast@)) == Some(t@),
            None => explicit_title(entries(ast@)) is None,
        },
{
    let ghost es = entries(ast@);
    let mut i: usize = ast.len();
    assert(es.take(i as int) =~= es);
    while i > 0
        invariant
            i <= ast.len(),
            es == entries(ast@),
            explicit_title(es.take(i as int)) == explicit_title(es),
        decreases i,
    {
        let ghost cur = es.take(i as int);
        assert(cur.drop_last() =~= es.take(i - 1));
        assert(cur.last() == ast@[i - 1]@);
        match &ast[i - 1] {
            Entry::DocTitle(t) => {
                return Some(chars_of(t.as_str()));
            },
            _ => {},
        }
        i -= 1;
    }
    None
}

/// The title of the first page among `ast`.
fn first_page_title(ast: &[Entry]) -> (r: Option<Vec<char>>)
    ensures
        match r {
            Some(t) => pages_of(entries(ast@)).len() > 0 && pages_of(entries(ast@))[0].title == t@,
            None => pages_of(entries(ast@)).len() == 0,
        },
{
    let ghost es = entries(ast@);
    let mut i: usize = 0;
    assert(es.take(0) =~= Seq::<EntryView>::empty());
    while i < ast.len()
        invariant
            i <= ast.len(),
            es == entries(ast@),
            pages_of(es.take(i as int)).len() == 0,
        decreases ast.len() - i,
    {
        let ghost next = es.take(i + 1);
        assert(next.drop_last() =~= es.take(i as int));
        assert(next.last() == ast@[i as int]@);
        match &ast[i] {
            Entry::Page { title, content } => {
                proof {
                    lemma_first_page_stays(es, i + 1);
                }
                return Some(chars_of(title.as_str()));
            },
            _ => {},
        }
        i += 1;
    }
    assert(es.take(ast.len() as int) =~= es);
    None
}

/// The pages of a prefix of the entries are the first pages of all of them.
proof fn lemma_first_page_stays(es: Seq<EntryView>, k: int)
    requires
        0 <= k <= es.len(),
        pages_of(es.take(k)).len() > 0,
    ensures
        pages_of(es).len() > 0,
        pages_of(es)[0] == pages_of(es.take(k))[0],
    decreases es.len() - k,
{
    if k < es.len() {
        let next = es.take(k + 1);
        assert(next.drop_last() =~= es.take(k));
        lemma_first_page_stays(es, k + 1);
    } else {
        assert(es.take(k) =~= es);
    }
}

/// What the questions of a page have given so far.
struct PageWriter {
    html: Vec<char>,
    records: Vec<Vec<char>>,
}

impl View for PageWriter {
    type V = Rendered;

    closed spec fn view(&self) -> Rendered {
        Rendered { html: self.html@, records: texts(self.records@) }
    }
}

impl PageWriter {
    fn new() -> (w: Self)
        ensures
            w@ == (Rendered { html: Seq::empty(), records: Seq::empty() }),
    {
        let w = PageWriter { html: Vec::new(), records: Vec::new() };
        assert(texts(w.records@) =~= Seq::empty());
        w
    }

    fn add_markup(&mut self, fragment: &str)
        ensures
            final(self)@ == (Rendered {
                html: old(self)@.html + fragment@.push('\n'),
                ..old(self)@
            }),
    {
        let ghost before = self.html@;
        push_str(&mut self.html, fragment);
        self.html.push('\n');
        assert(self.html@ =~= before + fragment@.push('\n'));
    }

    fn add_script(&mut self, js: &str)
        ensures
            final(self)@ == (Rendered {
                records: old(self)@.records.push(script_record(js@)),
                ..old(self)@
            }),
    {
        let mut record: Vec<char> = Vec::new();
        push_str(&mut record, RECORD_OPEN);
        push_str(&mut record, to_js_string(js).as_str());
        push_str(&mut record, RECORD_CLOSE);
        assert(record@ =~= script_record(js@));
        proof {
            lemma_texts_push(self.records@, record);
        }
        self.records.push(record);
    }

    fn add(&mut self, page: usize, index: usize, q: &Question)
        ensures
            final(self)@ == render_question(old(self)@, page as nat, index as nat, q@),
    {
        match q {
            Question::Insert(insert) => {
                let (fragment, _) = insert.render_html();
                self.add_markup(fragment.as_str());
            },
            Question::Choose(choose) => {
                let (fragment, script) = choose.render_html(page, index);
                self.add_markup(fragment.as_str());
                match script {
                    Some(js) => {
                        self.add_script(js.as_str());
                    },
                    None => {},
                }
            },
            Question::Html(node) => {
                let (fragment, _) = node.render_html();
                self.add_markup(fragment.as_str());
            },
            Question::Css(node) => {
                let (fragment, _) = node.render_html();
                self.add_markup(fragment.as_str());
            },
            Question::Js(node) => {
                let (_, script) = node.render_html();
                match script {
                    Some(js) => {
                        self.add_script(js.as_str());
                    },
                    None => {},
                }
            },
        }
    }
}

/// The questions `content` of page `page`, rendered in order.
fn render_content(page: usize, content: &Vec<Question>) -> (w: PageWriter)
    ensures
        w@ == render_questions(page as nat, questions(content@)),
{
    let ghost qs = questions(content@);
    let mut w = PageWriter::new();
    let mut j: usize = 0;
    assert(qs.take(0) =~= Seq::<QuestionView>::empty());
    while j < content.len()
        invariant
            j <= content.len(),
            qs == questions(content@),
            w@ == render_questions(page as nat, qs.take(j as int)),
        decreases content.len() - j,
    {
        proof {
            let next = qs.take(j + 1);
            assert(next.drop_last() =~= qs.take(j as int));
            assert(next.last() == content@[j as int]@);
        }
        w.add(page, j, &content[j]);
        j += 1;
    }
    assert(qs.take(content.len() as int) =~= qs);
    w
}

/// The section of page `i`.
fn section_chars(i: usize, title: &str, heading: bool, body: &Vec<char>) -> (out: Vec<char>)
    ensures
        out@ == section_html(i as nat, title@, heading, body@),
{
    let mut out: Vec<char> = Vec::new();
    push_str(&mut out, SECTION_OPEN);
    push_all(&mut out, &decimal_chars(i));
    push_str(&mut out, SECTION_INDEX_END);
    if heading {
        push_str(&mut out, HEADING_OPEN);
        push_all(&mut out, &escape_html_chars(&chars_of(title)));
        push_str(&mut out, HEADING_CLOSE);
    }
    push_all(&mut out, body);
    push_str(&mut out, SECTION_CLOSE);
    assert(out@ =~= section_html(i as nat, title@, heading, body@));
    out
}

/// The row of a page in the script table.
fn row_chars(records: &Vec<Vec<char>>) -> (out: Vec<char>)
    ensures
        out@ == script_row(texts(records@)),
{
    let mut comma: Vec<char> = Vec::new();
    comma.push(',');
    assert(comma@ =~= seq![',']);
    let mut out: Vec<char> = Vec::new();
    out.push('[');
    push_all(&mut out, &join_from(records, 0, &comma));
    out.push(']');
    assert(texts(records@).skip(0) =~= texts(records@));
    assert(out@ =~= script_row(texts(records@)));
    out
}

/// The pages while they are rendered.
struct DocumentWriter {
    html: Vec<char>,
    rows: Vec<Vec<char>>,
}

impl View for DocumentWriter {
    type V = Pages;

    closed spec fn view(&self) -> Pages {
        Pages { html: self.html@, rows: texts(self.rows@) }
    }
}

/// Whether the explicit title `explicit` is `title`.
fn is_title(explicit: &Option<Vec<char>>, title: &str) -> (r: bool)
    ensures
        r == match explicit {
            Some(t) => t@ == title@,
            None => false,
        },
{
    match explicit {
        Some(t) => same_chars(t, &chars_of(title)),
        None => false,
    }
}

/// The pages among `ast`, each rendered under its position among them.
fn render_all(ast: &[Entry], explicit: &Option<Vec<char>>) -> (r: (DocumentWriter, usize))
    ensures
        r.0@ == render_pages(
            pages_of(entries(ast@)),
            match explicit {
                Some(t) => Some(t@),
                None => None,
            },
        ),
        r.1 == pages_of(entries(ast@)).len(),
{
    let ghost es = entries(ast@);
    let ghost ex: Option<Seq<char>> = match explicit {
        Some(t) => Some(t@),
        None => None,
    };
    let mut w = DocumentWriter { html: Vec::new(), rows: Vec::new() };
    let mut count: usize = 0;
    let mut i: usize = 0;
    assert(es.take(0) =~= Seq::<EntryView>::empty());
    assert(texts(w.rows@) =~= Seq::<Seq<char>>::empty());
    while i < ast.len()
        invariant
            i <= ast.len(),
            es == entries(ast@),
            ex == match explicit {
                Some(t) => Some(t@),
                None => None,
            },
            count <= i,
            count == pages_of(es.take(i as int)).len(),
            w@ == render_pages(pages_of(es.take(i as int)), ex),
        decreases ast.len() - i,
    {
        proof {
            let next = es.take(i + 1);
            assert(next.drop_last() =~= es.take(i as int));
            assert(next.last() == ast@[i as int]@);
        }
        match &ast[i] {
            Entry::Page { title, content } => {
                let heading = !(count == 0 && is_title(explicit, title.as_str()));
                let body = render_content(count, content);
                let section = section_chars(count, title.as_str(), heading, &body.html);
                let row = row_chars(&body.records);
                proof {
                    let ps = pages_of(es.take(i + 1));
                    assert(ps.drop_last() =~= pages_of(es.take(i as int)));
                    lemma_texts_push(w.rows@, row);
                }
                push_all(&mut w.html, &section);
                w.rows.push(row);
                count = count + 1;
            },
            _ => {},
        }
        i += 1;
    }
    assert(es.take(ast.len() as int) =~= es);
    (w, count)
}

/// Renders the document for `ast`: one self-contained HTML text.
///
/// The title is the explicit title of the document, else the title of its
/// first page, else a fixed one. Every page becomes a section under its
/// position among the pages, and its scripts become one row of the script
/// table, in source order. A single-answer question is numbered by its
/// position among all the questions of its page.
pub fn build_pages(ast: &[Entry]) -> (html: String)
    ensures
        html@ == document(entries(ast@)),
{
    let explicit = explicit_title_of(ast);
    let title: Vec<char> = match &explicit {
        Some(t) => slice_of(t, 0, t.len()),
        None => match first_page_title(ast) {
            Some(t) => t,
            None => chars_of(FALLBACK_TITLE),
        },
    };
    assert(title@ =~= document_title(entries(ast@)));
    let title_text = escape_html_chars(&title);
    let (pages, count) = render_all(ast, &explicit);
    let mut comma: Vec<char> = Vec::new();
    comma.push(',');
    assert(comma@ =~= seq![',']);
    let table = join_from(&pages.rows, 0, &comma);
    assert(texts(pages.rows@).skip(0) =~= texts(pages.rows@));
    let mut out: Vec<char> = Vec::new();
    push_str(&mut out, DOC_OPEN);
    push_all(&mut out, &title_text);
    push_str(&mut out, DOC_STYLE_OPEN);
    push_str(&mut out, STYLE_SHEET);
    push_str(&mut out, DOC_HEADING_OPEN);
    push_all(&mut out, &title_text);
    push_str(&mut out, DOC_PAGES_OPEN);
    push_all(&mut out, &pages.html);
    push_str(&mut out, DOC_CONTROLS);
    push_all(&mut out, &decimal_chars(count));
    push_str(&mut out, DOC_TABLE_OPEN);
    push_all(&mut out, &table);
    push_str(&mut out, DOC_TABLE_CLOSE);
    let ghost before = out@;
    push_str(&mut out, RUNTIME_ANSWERS);
    push_str(&mut out, RUNTIME_RERUN);
    push_str(&mut out, RUNTIME_API);
    push_str(&mut out, RUNTIME_SCRIPTS);
    push_str(&mut out, RUNTIME_PAGES);
    push_str(&mut out, RUNTIME_SAVE);
    assert(out@ =~= before + runtime_script());
    push_str(&mut out, DOC_CLOSE);
    assert(out@ =~= document(entries(ast@)));
    text_of(&out)
}

/// The document that a source text describes, or why it describes none.
pub open spec fn source_document(source: Seq<char>) -> Result<Seq<char>, CompileError> {
    match parse(lines(source)) {
        Ok(es) => Ok(document(es)),
        Err(e) => Err(e),
    }
}

/// Whether `out` is what compiling `source` gives.
pub open spec fn compiles_to(source: Seq<char>, out: Result<Seq<char>, CompileError>) -> bool {
    out == source_document(source)
}

/// What a compile gave, as plain text.
pub open spec fn outcome(r: Result<String, CompileError>) -> Result<Seq<char>, CompileError> {
    match r {
        Ok(html) => Ok(html@),
        Err(e) => Err(e),
    }
}

/// Compiling is deterministic: whatever two compiles of one source give is
/// the same, character for character.
pub proof fn lemma_compile_is_deterministic(
    source: Seq<char>,
    first: Result<Seq<char>, CompileError>,
    second: Result<Seq<char>, CompileError>,
)
    requires
        compiles_to(source, first),
        compiles_to(source, second),
    ensures
        first == second,
{
}

/// Compiles a source text into its document.
///
/// The result depends on the source text alone. It fails exactly when the
/// source does not parse, and then nothing is rendered.
pub fn compile_to_html(source: &str) -> (r: Result<String, CompileError>)
    ensures
        compiles_to(source@, outcome(r)),
{
    match compile_source(source) {
        Ok(ast) => Ok(build_pages(ast.as_slice())),
        Err(e) => Err(e),
    }
}

} // verus!

//! The progress reports of a clone: the phase, the message shown and the
//! counters, for each step at which the clone reports.
use vstd::prelude::*;
use crate::downloader::ProgressEvent;
use crate::text::{cat, decimal, decimal_string, to_owned_string};

verus! {

/// A report as plain values: phase, message and the four counters.
pub open spec fn event_view(e: ProgressEvent) -> (Seq<char>, Seq<char>, int, int, int, int) {
    (e.phase@, e.message@, e.pages_done as int, e.pages_total as int, e.assets_done as int, e.assets_known as int)
}

pub open spec fn max_int(a: int, b: int) -> int {
    if a >= b {
        a
    } else {
        b
    }
}

pub open spec fn dec(n: usize) -> Seq<char> {
    decimal(n as nat)
}

fn num(n: usize) -> (r: String)
    ensures
        r@ == dec(n),
{
    decimal_string(n as u64)
}

/// A report of the given phase.
pub fn progress_event(
    phase: &str,
    message: String,
    pages_done: usize,
    pages_total: usize,
    assets_done: usize,
    assets_known: usize,
) -> (e: ProgressEvent)
    ensures
        event_view(e) == (phase@, message@, pages_done as int, pages_total as int, assets_done as int, assets_known as int),
{
    ProgressEvent { phase: to_owned_string(phase), message, pages_done, pages_total, assets_done, assets_known }
}

/// Before the pages of a confirmed list are taken.
pub fn planned_start_event(total: usize, done_pages: usize, done_assets: usize, pending: usize) -> (e: ProgressEvent)
    ensures
        event_view(e) == ("pages"@, "دانلود "@ + dec(total) + " صفحه تأییدشده..."@, done_pages as int, total as int, done_assets as int, pending as int),
{
    let a = cat("دانلود ", num(total).as_str());
    progress_event("pages", cat(a.as_str(), " صفحه تأییدشده..."), done_pages, total, done_assets, pending)
}

/// Before crawling by links.
pub fn crawl_start_event(start_url: &str, out_dir: &str, max_pages: usize) -> (e: ProgressEvent)
    ensures
        event_view(e) == ("pages"@, "در حال کلون "@ + start_url@ + " → "@ + out_dir@, 0int, max_pages as int, 0int, 0int),
{
    let a = cat("در حال کلون ", start_url);
    let b = cat(a.as_str(), " → ");
    progress_event("pages", cat(b.as_str(), out_dir), 0, max_pages, 0, 0)
}

/// A page was fetched; `saved_before` pages were saved before it.
pub fn page_saved_event(
    saved_before: usize,
    page_url: &str,
    total: usize,
    assets_done: usize,
    assets_known: usize,
) -> (e: ProgressEvent)
    requires
        saved_before < usize::MAX,
    ensures
        event_view(e) == ("pages"@, "صفحه ["@ + dec((saved_before + 1) as usize) + "] "@ + page_url@, saved_before + 1, total as int, assets_done as int, assets_known as int),
{
    let n = saved_before + 1;
    let a = cat("صفحه [", num(n).as_str());
    let b = cat(a.as_str(), "] ");
    progress_event("pages", cat(b.as_str(), page_url), n, total, assets_done, assets_known)
}

/// The page phase was cancelled.
pub fn pages_cancelled_event(
    out_dir: &str,
    done_pages: usize,
    max_pages: usize,
    done_assets: usize,
    pending: usize,
) -> (e: ProgressEvent)
    ensures
        event_view(e) == ("cancelled"@, "دانلود لغو شد. برای ادامه، «ادامه دانلود» را بزنید.\nپوشه: "@ + out_dir@, done_pages as int, max_int(max_pages as int, done_pages as int), done_assets as int, pending as int),
{
    let total = if max_pages >= done_pages {
        max_pages
    } else {
        done_pages
    };
    progress_event(
        "cancelled",
        cat("دانلود لغو شد. برای ادامه، «ادامه دانلود» را بزنید.\nپوشه: ", out_dir),
        done_pages,
        total,
        done_assets,
        pending,
    )
}

/// The asset phase starts: `pages` pages are ready, `queued` assets wait
/// and `done_assets` were saved before.
pub fn assets_start_event(pages: usize, queued: usize, done_assets: usize) -> (e: ProgressEvent)
    requires
        queued + done_assets <= usize::MAX,
    ensures
        event_view(e) == ("assets"@, dec(pages) + " صفحه آماده. در حال دانلود "@ + dec(queued) + " فایل..."@, pages as int, pages as int, done_assets as int, max_int(queued + done_assets, 1)),
{
    let known = queued + done_assets;
    let shown = if known >= 1 {
        known
    } else {
        1
    };
    let a = cat(num(pages).as_str(), " صفحه آماده. در حال دانلود ");
    let b = cat(a.as_str(), num(queued).as_str());
    progress_event("assets", cat(b.as_str(), " فایل..."), pages, pages, done_assets, shown)
}

/// A batch of assets was handled.
pub fn assets_progress_event(pages: usize, assets_done: usize, pending: usize) -> (e: ProgressEvent)
    ensures
        event_view(e) == ("assets"@, "asset: "@ + dec(assets_done) + " دریافت شد"@, pages as int, pages as int, assets_done as int, max_int(pending as int, assets_done as int)),
{
    let known = if pending >= assets_done {
        pending
    } else {
        assets_done
    };
    let a = cat("asset: ", num(assets_done).as_str());
    progress_event("assets", cat(a.as_str(), " دریافت شد"), pages, pages, assets_done, known)
}

/// The asset phase was cancelled; what was saved can be resumed.
pub fn assets_cancelled_event(out_dir: &str, pages: usize, assets_done: usize, pending: usize) -> (e: ProgressEvent)
    ensures
        event_view(e) == ("cancelled"@, "دانلود لغو شد. پیشرفت ذخیره شد — می‌توانید ادامه دهید.\n"@ + out_dir@, pages as int, pages as int, assets_done as int, pending as int),
{
    progress_event(
        "cancelled",
        cat("دانلود لغو شد. پیشرفت ذخیره شد — می‌توانید ادامه دهید.\n", out_dir),
        pages,
        pages,
        assets_done,
        pending,
    )
}

/// References are being rewritten.
pub fn rewrite_event(pages: usize, assets_done: usize) -> (e: ProgressEvent)
    ensures
        event_view(e) == ("rewrite"@, "بازنویسی لینک‌ها برای استفاده آفلاین..."@, pages as int, pages as int, assets_done as int, assets_done as int),
{
    progress_event("rewrite", to_owned_string("بازنویسی لینک‌ها برای استفاده آفلاین..."), pages, pages, assets_done, assets_done)
}

/// The clone is finished.
pub fn done_event(out_dir: &str, broken_note: &str, pages: usize, assets_done: usize) -> (e: ProgressEvent)
    ensures
        event_view(e) == ("done"@, "تمام شد. سایت آفلاین در: "@ + out_dir@ + broken_note@, pages as int, pages as int, assets_done as int, assets_done as int),
{
    let a = cat("تمام شد. سایت آفلاین در: ", out_dir);
    progress_event("done", cat(a.as_str(), broken_note), pages, pages, assets_done, assets_done)
}

/// The note on broken local references: how many were found and where the
/// report is, or that none was found.
pub fn broken_note(found: usize, report_path: &str) -> (r: String)
    ensures
        found > 0 ==> r@ == "\n"@ + dec(found) + " لینک شکسته پیدا شد → "@ + report_path@,
        found == 0 ==> r@ == "\nلینک شکستهٔ محلی پیدا نشد."@,
{
    if found > 0 {
        let a = cat("\n", num(found).as_str());
        let b = cat(a.as_str(), " لینک شکسته پیدا شد → ");
        cat(b.as_str(), report_path)
    } else {
        to_owned_string("\nلینک شکستهٔ محلی پیدا نشد.")
    }
}

/// The line logged when a clone resumes from a checkpoint.
pub fn resume_log(done_pages: usize, planned_pages: usize) -> (r: String)
    ensures
        r@ == "ادامه از وضعیت قبلی: "@ + dec(done_pages) + " صفحه انجام‌شده از "@ + dec(planned_pages),
{
    let a = cat("ادامه از وضعیت قبلی: ", num(done_pages).as_str());
    let b = cat(a.as_str(), " صفحه انجام‌شده از ");
    cat(b.as_str(), num(planned_pages).as_str())
}

} // verus!

//! Profile entries as `list` and `status` show them: their JSON form and
//! their lines of text.
use vstd::prelude::*;

use colored::Colorize;

use crate::json_output::{status_error_summary_json, summary_message, summary_response, StatusErrorSummary};
use crate::managed_files::{files_tag, format_managed_files_suffix};
use crate::identity::opt_view;
use crate::status::{message_parts, split_lines, str_lines, usage_message_parts};
use crate::text::{push_char, views};
use crate::ui::{contains_reset, dim_start, strip_ansi_spec, style_reset};

verus! {

/// What a usage request gave for a profile: its state (`ok`, `error` or
/// `unavailable`), its usage windows (each as the service's JSON, with
/// `left_percent`, `reset_at` and `window_seconds`), the HTTP status, and a
/// summary and details.
#[derive(Debug)]
pub struct StatusUsage {
    pub state: String,
    pub buckets: Vec<serde_json::Value>,
    pub status_code: Option<u16>,
    pub summary: Option<String>,
    pub detail: Option<String>,
}

/// The usage state `state` with status `status_code`, summarised from
/// `message`: its summary line, and its detail lines when it has some.
pub fn status_usage_from_message(state: &str, status_code: Option<u16>, message: &str) -> (u: StatusUsage)
    ensures
        u.state@ == state@,
        u.buckets@.len() == 0,
        u.status_code == status_code,
        u.summary matches Some(s) && s@ == message_parts(message@).0,
        opt_view(u.detail) == message_parts(message@).1,
{
    let (summary, detail) = usage_message_parts(message);
    StatusUsage { state: String::from_str(state), buckets: Vec::new(), status_code, summary: Some(summary), detail }
}

/// The usage state of a profile whose usage cannot be asked for, with the
/// reason `message`.
pub fn unavailable_usage(message: &str) -> (u: StatusUsage)
    ensures
        u.state@ == "unavailable"@,
        u.status_code is None,
        u.summary matches Some(s) && s@ == message_parts(message@).0,
        opt_view(u.detail) == message_parts(message@).1,
{
    status_usage_from_message("unavailable", None, message)
}

/// A profile as listed: what is known of it, how it is shown, the lines
/// shown under it, and its usage and error.
#[derive(Debug)]
pub struct Entry {
    pub id: Option<String>,
    pub label: Option<String>,
    pub email: Option<String>,
    pub plan: Option<String>,
    pub is_api_key: bool,
    pub is_saved: bool,
    pub managed_files: Vec<String>,
    pub display: String,
    pub details: Vec<String>,
    pub warnings: Vec<String>,
    pub usage: Option<StatusUsage>,
    pub error_summary: Option<String>,
    pub always_show_details: bool,
    pub is_current: bool,
}

/// The error part of a profile's status.
#[derive(Debug)]
pub struct StatusError {
    pub summary: StatusErrorSummary,
    pub status_code: Option<u16>,
    pub detail: Option<String>,
}

/// A profile's status in JSON form.
#[derive(Debug)]
pub struct StatusProfile {
    pub id: Option<String>,
    pub label: Option<String>,
    pub email: Option<String>,
    pub plan: Option<String>,
    pub is_current: bool,
    pub is_saved: bool,
    pub is_api_key: bool,
    pub managed_files: Vec<String>,
    pub warnings: Vec<String>,
    pub usage: Option<StatusUsage>,
    pub error: Option<StatusError>,
}

/// The usage of an entry is in the `error` state.
pub open spec fn usage_failed(u: Option<StatusUsage>) -> bool {
    u matches Some(x) && x.state@ == "error"@
}

/// The summary that a status error is made from: the entry's own error
/// summary, else (for a failed usage request) the usage's summary.
pub open spec fn error_source(e: Entry) -> Option<String> {
    if usage_failed(e.usage) {
        match e.error_summary {
            Some(s) => Some(s),
            None => e.usage->0.summary,
        }
    } else {
        e.error_summary
    }
}

/// The JSON status of an entry. A failed usage request gives its status
/// code, details and summary to the error (the entry's own summary takes
/// precedence), and the usage keeps only its state; otherwise the entry's
/// own summary makes the error. Summaries are split at an embedded JSON
/// object.
pub fn status_profile_json(entry: Entry) -> (r: StatusProfile)
    ensures
        r.id == entry.id,
        r.label == entry.label,
        r.email == entry.email,
        r.plan == entry.plan,
        r.is_current == entry.is_current,
        r.is_saved == entry.is_saved,
        r.is_api_key == entry.is_api_key,
        r.managed_files == entry.managed_files,
        r.warnings == entry.warnings,
        usage_failed(entry.usage) ==> (r.usage matches Some(u) && u.state == entry.usage->0.state
            && u.buckets == entry.usage->0.buckets && u.status_code is None && u.summary is None && u.detail is None),
        !usage_failed(entry.usage) ==> r.usage == entry.usage,
        error_source(entry) is None ==> r.error is None,
        error_source(entry) matches Some(s) ==> (r.error matches Some(err) && err.summary.message@
            == summary_message(s@) && err.summary.response == summary_response(s@)
            && (if usage_failed(entry.usage) {
            err.status_code == entry.usage->0.status_code && err.detail == entry.usage->0.detail
        } else {
            err.status_code is None && err.detail is None
        })),
{
    let ghost e0 = entry;
    let Entry {
        id,
        label,
        email,
        plan,
        is_api_key,
        is_saved,
        managed_files,
        display: _,
        details: _,
        warnings,
        usage,
        error_summary,
        always_show_details: _,
        is_current,
    } = entry;
    let (usage, error) = match usage {
        Some(u) => {
            let failed = crate::text::str_eq(u.state.as_str(), "error");
            if failed {
                let StatusUsage { state, buckets, status_code, summary, detail } = u;
                let source = match error_summary {
                    Some(s) => Some(s),
                    None => summary,
                };
                let error = match source {
                    Some(s) => Some(
                        StatusError { summary: status_error_summary_json(s.as_str()), status_code, detail },
                    ),
                    None => None,
                };
                (Some(StatusUsage { state, buckets, status_code: None, summary: None, detail: None }), error)
            } else {
                let error = match error_summary {
                    Some(s) => Some(
                        StatusError {
                            summary: status_error_summary_json(s.as_str()),
                            status_code: None,
                            detail: None,
                        },
                    ),
                    None => None,
                };
                (Some(u), error)
            }
        },
        None => {
            let error = match error_summary {
                Some(s) => Some(
                    StatusError {
                        summary: status_error_summary_json(s.as_str()),
                        status_code: None,
                        detail: None,
                    },
                ),
                None => None,
            };
            (None, error)
        },
    };
    StatusProfile {
        id,
        label,
        email,
        plan,
        is_current,
        is_saved,
        is_api_key,
        managed_files,
        warnings,
        usage,
        error,
    }
}

/// How entries are rendered: whether usage details show, whether the
/// active profile is marked, whether ids show, whether colors are used,
/// and whether output is plain.
#[derive(Debug)]
pub struct RenderCtx {
    pub show_usage: bool,
    pub show_current_marker: bool,
    pub show_id: bool,
    pub use_color: bool,
    pub plain: bool,
}

/// The text ` [id: <id>]`.
pub open spec fn id_suffix(id: Seq<char>) -> Seq<char> {
    " [id: "@ + id + "]"@
}

/// The text ` <- active`.
pub open spec fn active_marker() -> Seq<char> {
    " <- active"@
}

/// The header line of an entry without colors: its display, its id when
/// ids show, the active marker when it applies, and its managed files.
pub open spec fn header_text(e: Entry, ctx: RenderCtx) -> Seq<char> {
    e.display@ + (if ctx.show_id && e.id is Some {
        id_suffix(e.id->0@)
    } else {
        Seq::empty()
    }) + (if ctx.show_current_marker && e.is_current {
        active_marker()
    } else {
        Seq::empty()
    }) + seq![' '] + files_tag(views(e.managed_files@))
}

/// The lines of one detail: an empty detail is one empty line; otherwise
/// each of its lines, the first indented by a space, empty ones kept empty.
pub open spec fn detail_block(d: Seq<char>) -> Seq<Seq<char>> {
    if d.len() == 0 {
        seq![Seq::empty()]
    } else {
        let ls = str_lines(d);
        Seq::new(
            ls.len(),
            |i: int| if ls[i].len() == 0 {
                Seq::empty()
            } else if i == 0 {
                seq![' '] + ls[i]
            } else {
                ls[i]
            },
        )
    }
}

/// The blocks of `ds`, one after another.
pub open spec fn detail_blocks(ds: Seq<Seq<char>>) -> Seq<Seq<char>>
    decreases ds.len(),
{
    if ds.len() == 0 {
        Seq::empty()
    } else {
        detail_blocks(ds.drop_last()) + detail_block(ds.last())
    }
}

/// The lines of an entry without colors.
pub open spec fn entry_text(e: Entry, ctx: RenderCtx) -> Seq<Seq<char>> {
    if !(ctx.show_usage || e.always_show_details) {
        seq![
            header_text(e, ctx) + match e.error_summary {
                Some(err) => seq![' ', ' '] + err@,
                None => Seq::empty(),
            },
        ]
    } else {
        seq![header_text(e, ctx), Seq::empty()] + detail_blocks(views(e.details@))
    }
}

/// The empty lines between two entries.
pub open spec fn separator_lines(ctx: RenderCtx, allow_plain_spacing: bool) -> Seq<Seq<char>> {
    (if !ctx.plain || allow_plain_spacing {
        seq![Seq::empty()]
    } else {
        Seq::empty()
    }) + (if ctx.show_usage && allow_plain_spacing {
        seq![Seq::empty()]
    } else {
        Seq::empty()
    })
}

/// The lines of entries without colors: each entry's lines, with the
/// separator between two entries.
pub open spec fn entries_text(es: Seq<Entry>, ctx: RenderCtx, allow_plain_spacing: bool) -> Seq<Seq<char>>
    decreases es.len(),
{
    if es.len() == 0 {
        Seq::empty()
    } else if es.len() == 1 {
        entry_text(es[0], ctx)
    } else {
        entries_text(es.drop_last(), ctx, allow_plain_spacing) + separator_lines(ctx, allow_plain_spacing)
            + entry_text(es.last(), ctx)
    }
}

/// The escape sequence that starts dimmed italic text.
pub open spec fn dim_italic_start() -> Seq<char> {
    seq!['\x1b', '[', '2', ';', '3', 'm']
}

/// `colored::Colorize::dimmed` then `italic` on `s`, rendered. Trusted:
/// when colors are off (colored decides by the environment and the
/// terminal) the text is unchanged; when on, and `s` holds no reset
/// sequence, it is wrapped in the dim-italic and reset sequences. Nothing is
/// said of text that already holds a reset sequence.
#[verifier::external_body]
fn colored_dimmed_italic(s: &str) -> (out: String)
    ensures
        !contains_reset(s@) ==> (out@ == s@ || out@ == dim_italic_start() + s@ + style_reset()),
{
    s.dimmed().italic().to_string()
}

/// The active marker, styled when `use_color` holds.
pub fn current_profile_marker(use_color: bool) -> (s: String)
    ensures
        !use_color ==> s@ == active_marker(),
        use_color ==> (s@ == active_marker() || s@ == dim_italic_start() + active_marker()
            + style_reset()),
{
    if use_color {
        proof {
            reveal_strlit(" <- active");
            assert forall|i: int| 0 <= i && i + 4 <= active_marker().len() implies
                #[trigger] active_marker().subrange(i, i + 4) != style_reset() by {
                assert(active_marker().subrange(i, i + 4)[0] == active_marker()[i]);
            }
        }
        colored_dimmed_italic(" <- active")
    } else {
        String::from_str(" <- active")
    }
}

/// The id suffix, dimmed when `use_color` holds.
pub fn format_profile_id_suffix(id: &str, use_color: bool) -> (s: String)
    ensures
        !use_color ==> s@ == id_suffix(id@),
        use_color && !contains_reset(id_suffix(id@)) ==> (s@ == id_suffix(id@) || s@ == dim_start()
            + id_suffix(id@) + style_reset()),
{
    let mut text = String::from_str(" [id: ");
    text.append(id);
    text.append("]");
    crate::ui::style_dimmed(text.as_str(), use_color)
}

/// `out` is `text`, or `text` between the style sequence `start` and the
/// reset sequence.
pub open spec fn styled_as(out: Seq<char>, text: Seq<char>, start: Seq<char>) -> bool {
    out == text || out == start + text + style_reset()
}

/// No part of the header that gets styled already holds a reset sequence.
pub open spec fn header_safe(e: Entry, ctx: RenderCtx) -> bool {
    &&& (ctx.show_id && e.id is Some ==> !contains_reset(id_suffix(e.id->0@)))
    &&& !contains_reset(seq![' '] + files_tag(views(e.managed_files@)))
}

/// `a`, `b`, `c` are the id suffix, the active marker and the files suffix
/// of a colored header: each styled or plain, and empty when not shown.
pub open spec fn header_pieces(e: Entry, ctx: RenderCtx, a: Seq<char>, b: Seq<char>, c: Seq<char>) -> bool {
    &&& if ctx.show_id && e.id is Some {
        styled_as(a, id_suffix(e.id->0@), dim_start())
    } else {
        a == Seq::<char>::empty()
    }
    &&& if ctx.show_current_marker && e.is_current {
        styled_as(b, active_marker(), dim_italic_start())
    } else {
        b == Seq::<char>::empty()
    }
    &&& styled_as(c, seq![' '] + files_tag(views(e.managed_files@)), dim_start())
}

/// What follows the header on an entry's first line: the error summary,
/// when details are not shown and there is one.
pub open spec fn first_tail(e: Entry, ctx: RenderCtx) -> Seq<char> {
    if !(ctx.show_usage || e.always_show_details) {
        match e.error_summary {
            Some(err) => seq![' ', ' '] + err@,
            None => Seq::empty(),
        }
    } else {
        Seq::empty()
    }
}

/// `l` is the first line of entry `e` in color, and `p` the same line
/// without colors.
pub open spec fn colors_line(l: Seq<char>, p: Seq<char>, e: Entry, ctx: RenderCtx) -> bool {
    &&& p == header_text(e, ctx) + first_tail(e, ctx)
    &&& exists|a: Seq<char>, b: Seq<char>, c: Seq<char>|
        #[trigger] header_pieces(e, ctx, a, b, c) && l == e.display@ + a + b + c + first_tail(e, ctx)
}

/// Line for line, `ls` is `ps`, but for first lines of entries of `es`
/// that are shown in color.
pub open spec fn lines_match(ls: Seq<Seq<char>>, ps: Seq<Seq<char>>, es: Seq<Entry>, ctx: RenderCtx) -> bool {
    &&& ls.len() == ps.len()
    &&& forall|k: int|
        0 <= k < ls.len() ==> ls[k] == ps[k] || exists|i: int|
            0 <= i < es.len() && #[trigger] colors_line(ls[k], ps[k], es[i], ctx)
}

proof fn lemma_lines_match_concat(
    l1: Seq<Seq<char>>,
    p1: Seq<Seq<char>>,
    l2: Seq<Seq<char>>,
    p2: Seq<Seq<char>>,
    es: Seq<Entry>,
    ctx: RenderCtx,
)
    requires
        lines_match(l1, p1, es, ctx),
        lines_match(l2, p2, es, ctx),
    ensures
        lines_match(l1 + l2, p1 + p2, es, ctx),
{
    assert forall|k: int| 0 <= k < (l1 + l2).len() implies (l1 + l2)[k] == (p1 + p2)[k] || exists|i: int|
        0 <= i < es.len() && #[trigger] colors_line((l1 + l2)[k], (p1 + p2)[k], es[i], ctx) by {
        if k < l1.len() {
            assert((l1 + l2)[k] == l1[k] && (p1 + p2)[k] == p1[k]);
        } else {
            assert((l1 + l2)[k] == l2[k - l1.len()] && (p1 + p2)[k] == p2[k - l1.len()]);
        }
    }
}

/// The header line of an entry.
fn entry_header(e: &Entry, ctx: &RenderCtx) -> (s: String)
    ensures
        !ctx.use_color ==> s@ == header_text(*e, *ctx),
        ctx.use_color && header_safe(*e, *ctx) ==> exists|a: Seq<char>, b: Seq<char>, c: Seq<char>|
            #[trigger] header_pieces(*e, *ctx, a, b, c) && s@ == e.display@ + a + b + c,
{
    let mut header = e.display.clone();
    let ghost a: Seq<char> = Seq::empty();
    let ghost b: Seq<char> = Seq::empty();
    if ctx.show_id {
        match &e.id {
            Some(id) => {
                let suffix = format_profile_id_suffix(id.as_str(), ctx.use_color);
                proof {
                    a = suffix@;
                }
                header.append(suffix.as_str());
            },
            None => {},
        }
    }
    if ctx.show_current_marker && e.is_current {
        let marker = current_profile_marker(ctx.use_color);
        proof {
            b = marker@;
        }
        header.append(marker.as_str());
    }
    let files = format_managed_files_suffix(&e.managed_files, ctx.use_color);
    let ghost c = files@;
    header.append(files.as_str());
    proof {
        assert(header@ =~= e.display@ + a + b + c);
        if !ctx.use_color {
            assert(header@ =~= header_text(*e, *ctx));
        }
        if ctx.use_color && header_safe(*e, *ctx) {
            assert(dim_start() + seq![' '] + files_tag(views(e.managed_files@)) + style_reset() =~= dim_start() + (
            seq![' '] + files_tag(views(e.managed_files@))) + style_reset());
            assert(header_pieces(*e, *ctx, a, b, c));
        }
    }
    header
}

/// The lines of one detail.
fn push_detail(lines: &mut Vec<String>, d: &str)
    ensures
        views(final(lines)@) == views(old(lines)@) + detail_block(d@),
{
    let ghost l0 = views(lines@);
    if d.unicode_len() == 0 {
        lines.push(String::new());
        assert(views(lines@) =~= l0 + detail_block(d@));
        return;
    }
    let parts = split_lines(d);
    let ghost ls = str_lines(d@);
    let mut k: usize = 0;
    while k < parts.len()
        invariant
            k <= parts@.len(),
            d@.len() > 0,
            views(parts@) == ls,
            ls == str_lines(d@),
            views(lines@) == l0 + detail_block(d@).take(k as int),
        decreases parts.len() - k,
    {
        let part = parts[k].as_str();
        assert(part@ == ls[k as int]);
        let line = if part.unicode_len() == 0 {
            String::new()
        } else if k == 0 {
            let mut t = String::new();
            push_char(&mut t, ' ');
            t.append(part);
            t
        } else {
            String::from_str(part)
        };
        assert(line@ =~= detail_block(d@)[k as int]);
        let ghost before = views(lines@);
        lines.push(line);
        assert(views(lines@) =~= before.push(detail_block(d@)[k as int]));
        assert(detail_block(d@).take(k + 1) =~= detail_block(d@).take(k as int).push(detail_block(d@)[k as int]));
        k = k + 1;
    }
    assert(detail_block(d@).take(parts@.len() as int) =~= detail_block(d@));
}

/// Adds the empty line between entries, unless output is plain and plain
/// spacing is not allowed.
pub fn push_separator(lines: &mut Vec<String>, plain: bool, allow_plain_spacing: bool)
    ensures
        views(final(lines)@) == views(old(lines)@) + (if !plain || allow_plain_spacing {
            seq![Seq::<char>::empty()]
        } else {
            Seq::empty()
        }),
{
    let ghost l0 = views(lines@);
    if !plain || allow_plain_spacing {
        lines.push(String::new());
    }
    assert(views(lines@) =~= l0 + (if !plain || allow_plain_spacing {
        seq![Seq::<char>::empty()]
    } else {
        Seq::empty()
    }));
}

/// Adds the lines of entry `e`: line for line those of `entry_text`, but
/// for the first, whose header is the colored one.
fn push_entry(lines: &mut Vec<String>, e: &Entry, ctx: &RenderCtx)
    ensures
        views(final(lines)@).len() == views(old(lines)@).len() + entry_text(*e, *ctx).len(),
        views(final(lines)@).subrange(0, views(old(lines)@).len() as int) == views(old(lines)@),
        lines_match(
            views(final(lines)@).subrange(views(old(lines)@).len() as int, views(final(lines)@).len() as int),
            entry_text(*e, *ctx),
            seq![*e],
            *ctx,
        ) || !(ctx.use_color ==> header_safe(*e, *ctx)),
        !ctx.use_color ==> views(final(lines)@) == views(old(lines)@) + entry_text(*e, *ctx),
{
    let ghost l0 = views(lines@);
    let mut header = entry_header(e, ctx);
    let show_detail_lines = ctx.show_usage || e.always_show_details;
    let ghost h0 = header@;
    if !show_detail_lines {
        match &e.error_summary {
            Some(err) => {
                push_char(&mut header, ' ');
                push_char(&mut header, ' ');
                header.append(err.as_str());
                assert(header@ =~= h0 + seq![' ', ' '] + err@);
            },
            None => {
                assert(header@ =~= h0 + Seq::<char>::empty());
            },
        }
        assert(header@ == h0 + first_tail(*e, *ctx));
        let ghost h1 = header@;
        lines.push(header);
        assert(views(lines@) =~= l0 + seq![h1]);
    } else {
        lines.push(header);
        lines.push(String::new());
        assert(views(lines@) =~= l0 + seq![h0, Seq::<char>::empty()]);
        assert(views(e.details@).take(0) =~= Seq::<Seq<char>>::empty());
        let mut k: usize = 0;
        while k < e.details.len()
            invariant
                k <= e.details@.len(),
                views(lines@) == l0 + seq![h0, Seq::<char>::empty()] + detail_blocks(views(e.details@).take(k as int)),
            decreases e.details.len() - k,
        {
            push_detail(lines, e.details[k].as_str());
            proof {
                let ds = views(e.details@);
                assert(ds.take(k + 1).drop_last() =~= ds.take(k as int));
                assert(ds.take(k + 1).last() == e.details@[k as int]@);
            }
            k = k + 1;
        }
        assert(views(e.details@).take(e.details@.len() as int) =~= views(e.details@));
    }
    proof {
        let pe = entry_text(*e, *ctx);
        let le = views(lines@).subrange(l0.len() as int, views(lines@).len() as int);
        assert(views(lines@) =~= l0 + le);
        assert(views(lines@).subrange(0, l0.len() as int) =~= l0);
        if show_detail_lines {
            assert(le =~= seq![h0, Seq::<char>::empty()] + detail_blocks(views(e.details@)));
            assert(pe =~= seq![header_text(*e, *ctx), Seq::<char>::empty()] + detail_blocks(views(e.details@)));
        } else {
            assert(le =~= seq![h0 + first_tail(*e, *ctx)]);
        }
        assert(le.len() == pe.len());
        assert(pe[0] == header_text(*e, *ctx) + first_tail(*e, *ctx));
        assert(le[0] == h0 + first_tail(*e, *ctx));
        assert forall|k: int| 1 <= k < le.len() implies le[k] == pe[k] by {}
        if !ctx.use_color {
            assert(le =~= pe);
        } else if header_safe(*e, *ctx) {
            let (a, b, c) = choose|a: Seq<char>, b: Seq<char>, c: Seq<char>|
                #[trigger] header_pieces(*e, *ctx, a, b, c) && h0 == e.display@ + a + b + c;
            assert(e.display@ + a + b + c + first_tail(*e, *ctx) == le[0]);
            assert(colors_line(le[0], pe[0], seq![*e][0], *ctx));
        }
    }
}

/// Widens the entries that first lines may belong to.
proof fn lemma_lines_match_widen(ls: Seq<Seq<char>>, ps: Seq<Seq<char>>, e: Entry, es: Seq<Entry>, i: int, ctx: RenderCtx)
    requires
        lines_match(ls, ps, seq![e], ctx),
        0 <= i < es.len(),
        es[i] == e,
    ensures
        lines_match(ls, ps, es, ctx),
{
    assert forall|k: int| 0 <= k < ls.len() implies ls[k] == ps[k] || exists|j: int|
        0 <= j < es.len() && #[trigger] colors_line(ls[k], ps[k], es[j], ctx) by {
        if ls[k] != ps[k] {
            let j = choose|j: int| 0 <= j < 1 && #[trigger] colors_line(ls[k], ps[k], seq![e][j], ctx);
            assert(colors_line(ls[k], ps[k], es[i], ctx));
        }
    }
}

/// The lines of the entries, one block per entry with separators between
/// them; without colors, exactly `entries_text`. With colors, there are as
/// many lines, and each is the line without colors, or (when no styled
/// part already holds a reset sequence) an entry's first line with its id
/// suffix, active marker and files suffix each styled or plain.
#[verifier::rlimit(40)]
pub fn render_entries(entries: &Vec<Entry>, ctx: &RenderCtx, allow_plain_spacing: bool) -> (lines: Vec<String>)
    ensures
        views(lines@).len() == entries_text(entries@, *ctx, allow_plain_spacing).len(),
        !ctx.use_color ==> views(lines@) == entries_text(entries@, *ctx, allow_plain_spacing),
        (forall|i: int| 0 <= i < entries@.len() ==> header_safe(#[trigger] entries@[i], *ctx)) ==> lines_match(
            views(lines@),
            entries_text(entries@, *ctx, allow_plain_spacing),
            entries@,
            *ctx,
        ),
{
    let ghost safe = forall|i: int| 0 <= i < entries@.len() ==> header_safe(#[trigger] entries@[i], *ctx);
    let mut lines: Vec<String> = Vec::new();
    let mut idx: usize = 0;
    while idx < entries.len()
        invariant
            idx <= entries@.len(),
            safe == forall|i: int| 0 <= i < entries@.len() ==> header_safe(#[trigger] entries@[i], *ctx),
            views(lines@).len() == (entries_text(entries@.take(idx as int), *ctx, allow_plain_spacing) + (if 0
                < idx < entries@.len() {
                separator_lines(*ctx, allow_plain_spacing)
            } else {
                Seq::empty()
            })).len(),
            (safe || !ctx.use_color) ==> lines_match(
                views(lines@),
                entries_text(entries@.take(idx as int), *ctx, allow_plain_spacing) + (if 0 < idx
                    < entries@.len() {
                    separator_lines(*ctx, allow_plain_spacing)
                } else {
                    Seq::empty()
                }),
                entries@,
                *ctx,
            ),
            !ctx.use_color ==> views(lines@) == entries_text(entries@.take(idx as int), *ctx, allow_plain_spacing)
                + (if 0 < idx < entries@.len() {
                separator_lines(*ctx, allow_plain_spacing)
            } else {
                Seq::empty()
            }),
        decreases entries.len() - idx,
    {
        let e = &entries[idx];
        let ghost l0 = views(lines@);
        let ghost p0 = entries_text(entries@.take(idx as int), *ctx, allow_plain_spacing) + (if 0 < idx
            < entries@.len() {
            separator_lines(*ctx, allow_plain_spacing)
        } else {
            Seq::empty()
        });
        push_entry(&mut lines, e, ctx);
        proof {
            let es = entries@.take(idx + 1);
            let pe = entry_text(*e, *ctx);
            let le = views(lines@).subrange(l0.len() as int, views(lines@).len() as int);
            assert(views(lines@) =~= l0 + le);
            assert(es.drop_last() =~= entries@.take(idx as int));
            assert(es.last() == *e);
            if idx == 0 {
                assert(es =~= seq![*e]);
            }
            assert(entries_text(es, *ctx, allow_plain_spacing) =~= p0 + pe) by {
                if idx > 0 {
                    assert(entries_text(es, *ctx, allow_plain_spacing) == entries_text(es.drop_last(), *ctx, allow_plain_spacing)
                        + separator_lines(*ctx, allow_plain_spacing) + entry_text(es.last(), *ctx));
                }
            }
            if safe || !ctx.use_color {
                if ctx.use_color {
                    assert(header_safe(entries@[idx as int], *ctx));
                }
                lemma_lines_match_widen(le, pe, *e, entries@, idx as int, *ctx);
                lemma_lines_match_concat(l0, p0, le, pe, entries@, *ctx);
            }
        }
        if idx + 1 < entries.len() {
            let ghost l1 = views(lines@);
            push_separator(&mut lines, ctx.plain, allow_plain_spacing);
            let ghost l2 = views(lines@);
            if ctx.show_usage && allow_plain_spacing {
                lines.push(String::new());
                assert(views(lines@) =~= l2 + seq![Seq::<char>::empty()]);
            } else {
                assert(views(lines@) =~= l2 + Seq::<Seq<char>>::empty());
            }
            proof {
                let sp = separator_lines(*ctx, allow_plain_spacing);
                assert(views(lines@) =~= l1 + sp);
                assert(lines_match(sp, sp, entries@, *ctx));
                if safe || !ctx.use_color {
                    lemma_lines_match_concat(l1, entries_text(entries@.take(idx + 1), *ctx, allow_plain_spacing), sp, sp, entries@, *ctx);
                }
            }
        } else {
            proof {
                assert(views(lines@) =~= views(lines@) + Seq::<Seq<char>>::empty());
            }
        }
        idx = idx + 1;
    }
    proof {
        assert(entries@.take(entries@.len() as int) =~= entries@);
        assert(entries_text(entries@, *ctx, allow_plain_spacing) + Seq::<Seq<char>>::empty() =~= entries_text(entries@, *ctx, allow_plain_spacing));
    }
    lines
}

} // verus!

verus! {

/// The email and plan a profile is shown with: those its credentials carry
/// when they were read, else those its index entry records.
pub fn profile_email_plan(
    tokens: Option<&crate::identity::TokenSummary>,
    fallback: Option<&crate::index::ProfileIndexEntry>,
) -> (r: (Option<String>, Option<String>))
    ensures
        match tokens {
            Some(t) => crate::identity::opt_view(r.0) == crate::identity::opt_view(t.email)
                && crate::identity::opt_view(r.1) == crate::identity::opt_view(t.plan),
            None => match fallback {
                Some(e) => crate::identity::opt_view(r.0) == e@.email && crate::identity::opt_view(r.1)
                    == e@.plan,
                None => r.0 is None && r.1 is None,
            },
        },
{
    match tokens {
        Some(t) => (crate::identity::clone_opt(&t.email), crate::identity::clone_opt(&t.plan)),
        None => match fallback {
            Some(e) => (crate::identity::clone_opt(&e.email), crate::identity::clone_opt(&e.plan)),
            None => (None, None),
        },
    }
}

} // verus!

verus! {

/// The entry of a profile that could not be read: its email, plan and
/// API-key mark come from its index entry when there is one; it shows
/// `display`, the single detail line `Error: <message>`, and the summary
/// `Error: <summary of message>`; it is saved when it has an id.
pub fn make_error(
    id: Option<String>,
    label: Option<String>,
    index_entry: Option<&crate::index::ProfileIndexEntry>,
    managed_files: Vec<String>,
    display: String,
    message: &str,
    is_current: bool,
) -> (e: Entry)
    ensures
        opt_view(e.id) == opt_view(id),
        opt_view(e.label) == opt_view(label),
        match index_entry {
            Some(x) => opt_view(e.email) == x@.email && opt_view(e.plan) == x@.plan && e.is_api_key
                == x.is_api_key,
            None => e.email is None && e.plan is None && !e.is_api_key,
        },
        e.is_saved == (id is Some),
        views(e.managed_files@) == views(managed_files@),
        e.display@ == display@,
        views(e.details@) == seq!["Error: "@ + message@],
        e.warnings@.len() == 0,
        e.usage is None,
        e.error_summary matches Some(s) && s@ == crate::status::summary_line("Error"@, message@),
        !e.always_show_details,
        e.is_current == is_current,
{
    let (email, plan) = profile_email_plan(None, index_entry);
    let is_api_key = match index_entry {
        Some(x) => x.is_api_key,
        None => false,
    };
    let is_saved = id.is_some();
    let mut line = String::from_str("Error: ");
    line.append(message);
    let mut details: Vec<String> = Vec::new();
    details.push(line);
    proof {
        assert(views(details@) =~= seq!["Error: "@ + message@]);
    }
    let summary = crate::status::error_summary("Error", message);
    Entry {
        id,
        label,
        email,
        plan,
        is_api_key,
        is_saved,
        managed_files,
        display,
        details,
        warnings: Vec::new(),
        usage: None,
        error_summary: Some(summary),
        always_show_details: false,
        is_current,
    }
}

} // verus!

verus! {

/// The lines of `status --all` without colors: the base-address error
/// and an empty line, when there is one; the active entry, then two empty
/// lines when other entries follow; then the other entries, each pair
/// apart by the spacing of `status` output.
pub open spec fn status_all_text(
    base_url_error: Option<Seq<char>>,
    current: Option<Entry>,
    others: Seq<Entry>,
    ctx: RenderCtx,
) -> Seq<Seq<char>> {
    (match base_url_error {
        Some(m) => seq!["Error: "@ + m, Seq::empty()],
        None => Seq::empty(),
    }) + (match current {
        Some(e) => entry_text(e, ctx) + (if others.len() > 0 {
            seq![Seq::empty(), Seq::empty()]
        } else {
            Seq::empty()
        }),
        None => Seq::empty(),
    }) + entries_text(others, ctx, true)
}

/// The entries a `status --all` listing shows: the active one first.
pub open spec fn shown_entries(current: Option<Entry>, others: Seq<Entry>) -> Seq<Entry> {
    match current {
        Some(e) => seq![e] + others,
        None => others,
    }
}

proof fn lemma_lines_match_plain(ls: Seq<Seq<char>>, es: Seq<Entry>, ctx: RenderCtx)
    ensures
        lines_match(ls, ls, es, ctx),
{
}

proof fn lemma_lines_match_sub(ls: Seq<Seq<char>>, ps: Seq<Seq<char>>, es: Seq<Entry>, fs: Seq<Entry>, ctx: RenderCtx)
    requires
        lines_match(ls, ps, es, ctx),
        forall|i: int| 0 <= i < es.len() ==> fs.contains(#[trigger] es[i]),
    ensures
        lines_match(ls, ps, fs, ctx),
{
    assert forall|k: int| 0 <= k < ls.len() implies ls[k] == ps[k] || exists|j: int|
        0 <= j < fs.len() && #[trigger] colors_line(ls[k], ps[k], fs[j], ctx) by {
        if ls[k] != ps[k] {
            let i = choose|i: int| 0 <= i < es.len() && #[trigger] colors_line(ls[k], ps[k], es[i], ctx);
            assert(fs.contains(es[i]));
            let j = choose|j: int| 0 <= j < fs.len() && fs[j] == es[i];
            assert(colors_line(ls[k], ps[k], fs[j], ctx));
        }
    }
}

/// The lines of `status --all`: `None` when there is no entry at all (the
/// caller then says that no profiles are saved); otherwise `status_all_text`
/// without colors, and with colors the same lines but for styled headers.
#[verifier::rlimit(40)]
pub fn status_all_lines(base_url_error: Option<&str>, current: Option<&Entry>, others: &Vec<Entry>, ctx: &RenderCtx) -> (r:
    Option<Vec<String>>)
    ensures
        current is None && others@.len() == 0 <==> r is None,
        r matches Some(v) ==> views(v@).len() == status_all_text(
            opt_str_view(base_url_error),
            opt_entry(current),
            others@,
            *ctx,
        ).len(),
        !ctx.use_color && r is Some ==> views(r->0@) == status_all_text(
            opt_str_view(base_url_error),
            opt_entry(current),
            others@,
            *ctx,
        ),
        r matches Some(v) ==> ((forall|i: int|
            0 <= i < shown_entries(opt_entry(current), others@).len() ==> header_safe(
                #[trigger] shown_entries(opt_entry(current), others@)[i],
                *ctx,
            )) ==> lines_match(
            views(v@),
            status_all_text(opt_str_view(base_url_error), opt_entry(current), others@, *ctx),
            shown_entries(opt_entry(current), others@),
            *ctx,
        )),
{
    if current.is_none() && others.len() == 0 {
        return None;
    }
    let ghost shown = shown_entries(opt_entry(current), others@);
    let ghost safe = forall|i: int| 0 <= i < shown.len() ==> header_safe(#[trigger] shown[i], *ctx);
    let mut lines: Vec<String> = Vec::new();
    match base_url_error {
        Some(m) => {
            let mut line = String::from_str("Error: ");
            line.append(m);
            lines.push(line);
            lines.push(String::new());
        },
        None => {},
    }
    let ghost a = views(lines@);
    let ghost pa = match opt_str_view(base_url_error) {
        Some(m) => seq!["Error: "@ + m, Seq::<char>::empty()],
        None => Seq::<Seq<char>>::empty(),
    };
    proof {
        assert(a =~= pa);
        lemma_lines_match_plain(a, shown, *ctx);
    }
    let ghost pb = match opt_entry(current) {
        Some(e) => entry_text(e, *ctx) + (if others@.len() > 0 {
            seq![Seq::<char>::empty(), Seq::<char>::empty()]
        } else {
            Seq::<Seq<char>>::empty()
        }),
        None => Seq::<Seq<char>>::empty(),
    };
    match current {
        Some(e) => {
            push_entry(&mut lines, e, ctx);
            let ghost l1 = views(lines@);
            if others.len() > 0 {
                lines.push(String::new());
                lines.push(String::new());
            }
            proof {
                let le = l1.subrange(a.len() as int, l1.len() as int);
                assert(l1 =~= a + le);
                let sp = if others@.len() > 0 {
                    seq![Seq::<char>::empty(), Seq::<char>::empty()]
                } else {
                    Seq::<Seq<char>>::empty()
                };
                assert(views(lines@) =~= a + (le + sp));
                lemma_lines_match_plain(sp, shown, *ctx);
                if safe || !ctx.use_color {
                    if ctx.use_color {
                        assert(shown[0] == *e);
                        assert(header_safe(shown[0], *ctx));
                    }
                    lemma_lines_match_widen(le, entry_text(*e, *ctx), *e, shown, 0, *ctx);
                    lemma_lines_match_concat(le, entry_text(*e, *ctx), sp, sp, shown, *ctx);
                    lemma_lines_match_concat(a, pa, le + sp, pb, shown, *ctx);
                }
                if !ctx.use_color {
                    assert(views(lines@) =~= pa + pb);
                }
            }
        },
        None => {
            proof {
                assert(views(lines@) =~= pa + pb);
            }
        },
    }
    let ghost b = views(lines@);
    let rest = render_entries(others, ctx, true);
    let ghost c = views(rest@);
    let mut k: usize = 0;
    while k < rest.len()
        invariant
            k <= rest@.len(),
            c == views(rest@),
            views(lines@) == b + c.take(k as int),
        decreases rest.len() - k,
    {
        let ghost before = views(lines@);
        let line = rest[k].clone();
        assert(line@ == c[k as int]);
        lines.push(line);
        assert(views(lines@) =~= before.push(c[k as int]));
        assert(c.take(k + 1) =~= c.take(k as int).push(c[k as int]));
        k = k + 1;
    }
    proof {
        assert(c.take(c.len() as int) =~= c);
        let target = status_all_text(opt_str_view(base_url_error), opt_entry(current), others@, *ctx);
        assert(target =~= pa + pb + entries_text(others@, *ctx, true));
        if safe || !ctx.use_color {
            assert(lines_match(b, pa + pb, shown, *ctx));
            if safe {
                assert forall|i: int| 0 <= i < others@.len() implies header_safe(#[trigger] others@[i], *ctx) by {
                    match opt_entry(current) {
                        Some(e) => assert(shown[i + 1] == others@[i]),
                        None => assert(shown[i] == others@[i]),
                    }
                }
            }
            if ctx.use_color {
                assert forall|i: int| 0 <= i < others@.len() implies shown.contains(#[trigger] others@[i]) by {
                    match opt_entry(current) {
                        Some(e) => assert(shown[i + 1] == others@[i]),
                        None => assert(shown[i] == others@[i]),
                    }
                }
                lemma_lines_match_sub(c, entries_text(others@, *ctx, true), others@, shown, *ctx);
            } else {
                lemma_lines_match_plain(c, shown, *ctx);
            }
            lemma_lines_match_concat(b, pa + pb, c, entries_text(others@, *ctx, true), shown, *ctx);
        }
    }
    Some(lines)
}

/// The characters of an optional string slice.
pub open spec fn opt_str_view(s: Option<&str>) -> Option<Seq<char>> {
    match s {
        Some(x) => Some(x@),
        None => None,
    }
}

/// The entry an optional reference points at.
pub open spec fn opt_entry(e: Option<&Entry>) -> Option<Entry> {
    match e {
        Some(x) => Some(*x),
        None => None,
    }
}

} // verus!

verus! {

/// The warning shown on the active profile when it is not saved.
pub const UNSAVED_WARNING: &'static str = "This profile is not saved. Run `save` to keep it.";

/// The files a saved profile lists: those its index entry records (when it
/// has one), with `config.toml` when its config is saved.
pub open spec fn saved_files(index: &crate::index::ProfilesIndex, id: Seq<char>, saved_config: bool) -> Seq<Seq<char>> {
    crate::managed_files::profile_files_of(
        if crate::index::index_view(index).contains_key(id) {
            Some(crate::index::index_view(index)[id].managed_files)
        } else {
            None
        },
        saved_config,
    )
}

/// The files a save of the active credentials would keep.
pub open spec fn active_files(active_config: bool) -> Seq<Seq<char>> {
    if active_config {
        seq![crate::managed_files::auth_name(), crate::managed_files::config_name()]
    } else {
        seq![crate::managed_files::auth_name()]
    }
}

/// `l` is the label of profile `id`: its first label, or none.
pub open spec fn label_of(labels: &crate::labels::Labels, id: Seq<char>, l: Option<String>) -> bool {
    match l {
        Some(x) => crate::labels::is_first_label_for(crate::labels::label_map(labels), x@, id),
        None => !crate::labels::has_label_for(crate::labels::label_map(labels), id),
    }
}

/// `e` shows `message` as its error: one detail line `Error: <message>`
/// and the summary `Error: <summary>`.
pub open spec fn error_fields(e: Entry, message: Seq<char>) -> bool {
    &&& views(e.details@) == seq!["Error: "@ + message]
    &&& e.error_summary matches Some(s) && s@ == crate::status::summary_line("Error"@, message)
}

/// The entry of the active credentials. When they could not be read, it
/// shows the reason, with the files a save would keep. Otherwise it is the
/// saved profile `current_id` names (its label and files) or, when none
/// holds them, unsaved (the files a save would keep); it shows `details`,
/// but the copy error when refreshed credentials could not be copied to
/// the saved profile, then the unsaved warning when it is unsaved and
/// could be saved; its details always show when it is unsaved, or its plan
/// is free and usage is not shown.
pub fn current_entry(
    read: Result<crate::identity::TokenSummary, String>,
    current_id: Option<&str>,
    labels: &crate::labels::Labels,
    index: &crate::index::ProfilesIndex,
    saved_config: bool,
    active_config: bool,
    display: String,
    details: crate::details::DetailText,
    sync_error: Option<String>,
    can_save: bool,
    plan_is_free: bool,
    show_usage: bool,
) -> (e: Entry)
    ensures
        e.is_current,
        e.display@ == display@,
        match read {
            Err(m) => {
                &&& e.id is None && e.label is None && e.email is None && e.plan is None
                &&& !e.is_api_key && !e.is_saved && !e.always_show_details
                &&& views(e.managed_files@) == active_files(active_config)
                &&& error_fields(e, m@) && e.warnings@.len() == 0 && e.usage is None
            },
            Ok(t) => {
                let unsaved = current_id is None && can_save;
                let warnings = if unsaved {
                    seq![UNSAVED_WARNING@]
                } else {
                    Seq::empty()
                };
                let sync_failed = details.refreshed && current_id is Some && sync_error is Some;
                &&& opt_view(e.id) == crate::entries::opt_str_view(current_id)
                &&& e.is_saved == current_id is Some
                &&& match current_id {
                    Some(c) => label_of(labels, c@, e.label),
                    None => e.label is None,
                }
                &&& opt_view(e.email) == opt_view(t.email) && opt_view(e.plan) == opt_view(t.plan)
                &&& e.is_api_key == t.is_api_key
                &&& views(e.managed_files@) == match current_id {
                    Some(c) => saved_files(index, c@, saved_config),
                    None => active_files(active_config),
                }
                &&& views(e.warnings@) == warnings
                &&& e.always_show_details == (unsaved || (plan_is_free && !show_usage))
                &&& if sync_failed {
                    &&& views(e.details@) == seq!["Error: "@ + sync_error->0@] + warnings
                    &&& e.error_summary matches Some(s) && s@ == crate::status::summary_line(
                        "Error"@,
                        sync_error->0@,
                    )
                    &&& e.usage matches Some(u) && u.state@ == "error"@ && u.status_code is None
                } else {
                    &&& views(e.details@) == views(details.lines@) + warnings
                    &&& e.error_summary == details.summary
                    &&& e.usage == details.usage
                }
            },
        },
{
    match read {
        Err(m) => {
            let files = crate::managed_files::managed_files_for_save(active_config);
            let e = make_error(None, None, None, files, display, m.as_str(), true);
            e
        },
        Ok(t) => {
            let label = match current_id {
                Some(c) => crate::labels::label_for_id(labels, c),
                None => None,
            };
            let files = match current_id {
                Some(c) => crate::managed_files::managed_files_for_profile(index.profiles.get(c), saved_config),
                None => crate::managed_files::managed_files_for_save(active_config),
            };
            proof {
                if let Some(c) = current_id {
                    assert(crate::index::index_view(index).contains_key(c@) <==> index.profiles@.contains_key(c@));
                    if index.profiles@.contains_key(c@) {
                        assert(crate::index::index_view(index)[c@] == index.profiles@[c@]@);
                    }
                }
            }
            let (email, plan) = profile_email_plan(Some(&t), None);
            let crate::details::DetailText { lines, summary, usage, refreshed } = details;
            let (mut lines, summary, usage) = match (&sync_error, current_id) {
                (Some(err), Some(_)) if refreshed => {
                    let mut line = String::from_str("Error: ");
                    line.append(err.as_str());
                    let mut v: Vec<String> = Vec::new();
                    v.push(line);
                    (
                        v,
                        Some(crate::status::error_summary("Error", err.as_str())),
                        Some(status_usage_from_message("error", None, err.as_str())),
                    )
                },
                _ => (lines, summary, usage),
            };
            let (is_unsaved, always) = crate::details::current_entry_flags(
                current_id.is_some(),
                can_save,
                plan_is_free,
                show_usage,
            );
            let mut warnings: Vec<String> = Vec::new();
            if is_unsaved {
                warnings.push(String::from_str(UNSAVED_WARNING));
            }
            let ghost l0 = views(lines@);
            let mut k: usize = 0;
            while k < warnings.len()
                invariant
                    k <= warnings@.len(),
                    views(lines@) == l0 + views(warnings@).take(k as int),
                decreases warnings.len() - k,
            {
                let ghost before = views(lines@);
                let w = warnings[k].clone();
                lines.push(w);
                assert(views(lines@) =~= before.push(warnings@[k as int]@));
                assert(views(warnings@).take(k + 1) =~= views(warnings@).take(k as int).push(warnings@[k as int]@));
                k = k + 1;
            }
            proof {
                assert(views(warnings@).take(warnings@.len() as int) =~= views(warnings@));
                let unsaved = current_id is None && can_save;
                assert(views(warnings@) =~= if unsaved {
                    seq![UNSAVED_WARNING@]
                } else {
                    Seq::<Seq<char>>::empty()
                });
            }
            let id = match current_id {
                Some(c) => Some(String::from_str(c)),
                None => None,
            };
            Entry {
                is_saved: id.is_some(),
                id,
                label,
                email,
                plan,
                is_api_key: t.is_api_key,
                managed_files: files,
                display,
                details: lines,
                warnings,
                usage,
                error_summary: summary,
                always_show_details: always,
                is_current: true,
            }
        },
    }
}

/// The entry of saved profile `id`. When its credentials could not be read
/// (or its file is missing) it shows the reason, labelled by its label or
/// else its id, with what its index entry records. Otherwise it shows its
/// credentials' email and plan and `details`; its details always show when
/// its plan is free.
pub fn saved_entry(
    id: &str,
    labels: &crate::labels::Labels,
    tokens: &crate::store::TokensMap,
    index: &crate::index::ProfilesIndex,
    saved_config: bool,
    display: String,
    details: crate::details::DetailText,
    plan_is_free: bool,
    is_current: bool,
) -> (e: Entry)
    ensures
        e.id matches Some(x) && x@ == id@,
        e.is_saved,
        e.is_current == is_current,
        e.display@ == display@,
        views(e.managed_files@) == saved_files(index, id@, saved_config),
        e.warnings@.len() == 0,
        ({
            let i0 = crate::index::index_view(index);
            if tokens@.contains_key(id@) && tokens@[id@] is Ok {
                let t = tokens@[id@]->Ok_0;
                &&& label_of(labels, id@, e.label)
                &&& opt_view(e.email) == opt_view(t.email) && opt_view(e.plan) == opt_view(t.plan)
                &&& e.is_api_key == t.is_api_key
                &&& views(e.details@) == views(details.lines@)
                &&& e.error_summary == details.summary
                &&& e.usage == details.usage
                &&& e.always_show_details == plan_is_free
            } else {
                let message = if tokens@.contains_key(id@) {
                    tokens@[id@]->Err_0@
                } else {
                    "file missing"@
                };
                &&& (if crate::labels::has_label_for(crate::labels::label_map(labels), id@) {
                    label_of(labels, id@, e.label)
                } else {
                    opt_view(e.label) == Some(id@)
                })
                &&& (if i0.contains_key(id@) {
                    opt_view(e.email) == i0[id@].email && opt_view(e.plan) == i0[id@].plan && e.is_api_key
                        == i0[id@].is_api_key
                } else {
                    e.email is None && e.plan is None && !e.is_api_key
                })
                &&& error_fields(e, message)
                &&& e.usage is None
                &&& !e.always_show_details
            }
        }),
{
    let label = crate::labels::label_for_id(labels, id);
    let entry = index.profiles.get(id);
    proof {
        assert(crate::index::index_view(index).contains_key(id@) <==> index.profiles@.contains_key(id@));
        if index.profiles@.contains_key(id@) {
            assert(crate::index::index_view(index)[id@] == index.profiles@[id@]@);
        }
    }
    let files = crate::managed_files::managed_files_for_profile(entry, saved_config);
    match tokens.get(id) {
        Some(Ok(t)) => {
            let (email, plan) = profile_email_plan(Some(t), None);
            let crate::details::DetailText { lines, summary, usage, refreshed: _ } = details;
            Entry {
                id: Some(String::from_str(id)),
                is_saved: true,
                label,
                email,
                plan,
                is_api_key: t.is_api_key,
                managed_files: files,
                display,
                details: lines,
                warnings: Vec::new(),
                usage,
                error_summary: summary,
                always_show_details: plan_is_free,
                is_current,
            }
        },
        Some(Err(m)) => {
            let shown = match label {
                Some(l) => Some(l),
                None => Some(String::from_str(id)),
            };
            make_error(Some(String::from_str(id)), shown, entry, files, display, m.as_str(), is_current)
        },
        None => {
            let shown = match label {
                Some(l) => Some(l),
                None => Some(String::from_str(id)),
            };
            proof {
                reveal_strlit("file missing");
            }
            make_error(Some(String::from_str(id)), shown, entry, files, display, "file missing", is_current)
        },
    }
}

} // verus!

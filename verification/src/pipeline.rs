//! The whole extraction: macros gathered from every file, then each root
//! file through the conversion stages, the results joined.

use vstd::prelude::*;
use vstd::string::StringSliceAdditionalSpecFns;
use std::sync::atomic::AtomicBool;
use crate::cancel::cancel_requested;
use crate::cleanup::{cleaned, cleanup, pre_diacritic_stripped, strip_pre_diacritic_commands};
use crate::comments::{remove_comments, uncomment_from};
use crate::diacritics::{convert_diacritics, diacritics_converted};
use crate::environments::{convert_environments, environments_converted};
use crate::formatting::{convert_formatting, formatted};
use crate::input_resolve::{file_views, ordered_roots, resolve_and_order, TexFile};
use crate::macros::{
    collect_macros, collect_newtheorems, collect_parametric_macros, expand_macros_checked,
    expand_parametric_macros_checked, macro_expansion, macro_views, normalize_shorthands,
    pair_patterns, pair_replacements, parametric_expansion, parametric_macros, shorthand_pairs,
    simple_macros, theorems_from, MacroView, ParametricMacro,
};
use crate::preamble::{body_text, extract_body, lossy_rows, metadata_ranges, preamble_metadata, preamble_remarks, string_views};
use crate::references::{convert_references, references_converted};
use crate::replacer::replace_commands;
use crate::scan::{push_all, trim_ws, trim_ws_range};
use crate::structure::{convert_structure, inserted_all, section_labels, structure_converted};
use crate::symbols::{convert_symbols, symbols_converted};
use crate::text::{string_from_bytes, utf8_lossy};
use crate::textmap::{extend_entries, TextMap};
use crate::timing::{entry_names, stage_start, StageTimings};

verus! {

/// State threaded through the pipeline to share data between stages.
pub struct PipelineContext {
    pub macros: TextMap,
    pub parametric_macros: Vec<ParametricMacro>,
    pub custom_theorems: TextMap,
    pub section_label_map: TextMap,
}

/// Output of the timed extraction pipeline.
pub struct ExtractionOutput {
    pub text: Option<String>,
    pub timings: StageTimings,
}

/// The UTF-8 bytes of a text.
pub open spec fn enc(c: Seq<char>) -> Seq<u8> {
    vstd::utf8::encode_utf8(c)
}

/// Texts joined by newlines.
pub open spec fn join_lines(v: Seq<Seq<char>>) -> Seq<char>
    decreases v.len(),
{
    if v.len() == 0 {
        Seq::empty()
    } else if v.len() == 1 {
        v[0]
    } else {
        join_lines(v.drop_last()) + seq!['\n'] + v.last()
    }
}

/// Whether a text is empty once trimmed.
pub open spec fn blank(c: Seq<char>) -> bool {
    trim_ws(enc(c)).len() == 0
}

/// The text a file's stages start from: the preamble extras (title block,
/// remarks) as lines before the document body.
#[verifier::opaque]
pub open spec fn file_body(content: Seq<char>) -> Seq<char> {
    let f = enc(content);
    let extras = lossy_rows(preamble_metadata(f) + preamble_remarks(f, metadata_ranges(f)));
    let body = utf8_lossy(body_text(f));
    if extras.len() == 0 {
        body
    } else {
        join_lines(extras) + seq!['\n'] + body
    }
}

/// Comments removed, shorthands normalized and macros expanded.
#[verifier::opaque]
pub open spec fn expanded_body(content: Seq<char>, macros: Seq<(Seq<char>, Seq<char>)>, pms: Seq<MacroView>) -> Seq<char> {
    let a = utf8_lossy(uncomment_from(enc(file_body(content)), 0));
    let b = utf8_lossy(replace_commands(pair_patterns(shorthand_pairs()), pair_replacements(shorthand_pairs()), enc(a)));
    let c = utf8_lossy(macro_expansion(enc(b), macros));
    utf8_lossy(parametric_expansion(enc(c), pms))
}

/// The conversion stages after macro expansion, given the section labels
/// known before this file.
#[verifier::opaque]
pub open spec fn converted_body(d: Seq<char>, theorems: Seq<(Seq<char>, Seq<char>)>, labels: Seq<(Seq<char>, Seq<char>)>) -> Seq<char> {
    let e = utf8_lossy(structure_converted(enc(d)));
    let f = utf8_lossy(references_converted(enc(e), inserted_all(labels, section_labels(enc(d)))));
    let g = utf8_lossy(formatted(enc(f)));
    let h = utf8_lossy(environments_converted(enc(g), theorems));
    let i = utf8_lossy(pre_diacritic_stripped(enc(h)));
    let j = utf8_lossy(diacritics_converted(enc(i)));
    let k = utf8_lossy(symbols_converted(enc(j)));
    utf8_lossy(cleaned(enc(k)))
}

/// The names of the timed stages of a file, in order.
pub open spec fn stage_names() -> Seq<&'static str> {
    seq![
        "remove_comments",
        "normalize_shorthands",
        "expand_macros",
        "expand_parametric",
        "convert_structure",
        "convert_references",
        "convert_formatting",
        "convert_environments",
        "strip_pre_diacritic",
        "convert_diacritics",
        "convert_symbols",
        "cleanup",
    ]
}

/// The stage names recorded for `n` root files: the stages of each file
/// in turn.
pub open spec fn timed_stages(n: nat) -> Seq<&'static str>
    decreases n,
{
    if n == 0 {
        Seq::empty()
    } else {
        timed_stages((n - 1) as nat) + stage_names()
    }
}

/// The simple macros of the first `n` files, later definitions winning.
pub open spec fn macros_of(files: Seq<TexFile>, n: int) -> Seq<(Seq<char>, Seq<char>)>
    decreases n,
{
    if n <= 0 {
        Seq::empty()
    } else {
        let m = simple_macros(enc(files[n - 1].content@));
        extend_entries(macros_of(files, n - 1), m, m.len() as int)
    }
}

/// The parametric macros of the first `n` files, in order.
pub open spec fn parametrics_of(files: Seq<TexFile>, n: int) -> Seq<MacroView>
    decreases n,
{
    if n <= 0 {
        Seq::empty()
    } else {
        parametrics_of(files, n - 1) + parametric_macros(enc(files[n - 1].content@))
    }
}

/// The custom theorem environments of the first `n` files.
pub open spec fn theorems_of(files: Seq<TexFile>, n: int) -> Seq<(Seq<char>, Seq<char>)>
    decreases n,
{
    if n <= 0 {
        Seq::empty()
    } else {
        let m = theorems_from(enc(files[n - 1].content@), 0, Seq::empty());
        extend_entries(theorems_of(files, n - 1), m, m.len() as int)
    }
}

/// The non-blank results of the first `n` root files, and the section
/// labels gathered on the way.
pub open spec fn roots_from(
    roots: Seq<(Seq<char>, Seq<char>)>,
    n: int,
    macros: Seq<(Seq<char>, Seq<char>)>,
    pms: Seq<MacroView>,
    theorems: Seq<(Seq<char>, Seq<char>)>,
) -> (Seq<Seq<char>>, Seq<(Seq<char>, Seq<char>)>)
    decreases n,
{
    if n <= 0 {
        (Seq::empty(), Seq::empty())
    } else {
        let (parts, labels) = roots_from(roots, n - 1, macros, pms, theorems);
        let d = expanded_body(roots[n - 1].1, macros, pms);
        let l = converted_body(d, theorems, labels);
        (if blank(l) {
            parts
        } else {
            parts.push(l)
        }, inserted_all(labels, section_labels(enc(d))))
    }
}

/// The extracted text of the results: joined by newlines, none when there
/// is nothing or only blanks.
pub open spec fn output_text(parts: Seq<Seq<char>>) -> Option<Seq<char>> {
    if parts.len() == 0 || blank(join_lines(parts)) {
        None
    } else {
        Some(join_lines(parts))
    }
}

/// The text extracted from a paper's files: the non-blank results of its
/// root files, in order, joined by newlines (none when there are none).
pub open spec fn extracted_text(files: Seq<TexFile>) -> Option<Seq<char>> {
    output_text(
        roots_from(
            ordered_roots(files),
            ordered_roots(files).len() as int,
            macros_of(files, files.len() as int),
            parametrics_of(files, files.len() as int),
            theorems_of(files, files.len() as int),
        ).0,
    )
}

pub open spec fn text_view(t: Option<String>) -> Option<Seq<char>> {
    match t {
        Some(s) => Some(s@),
        None => None,
    }
}

/// Whether `s` is blank once trimmed.
fn is_blank(s: &String) -> (res: bool)
    ensures
        res == blank(s@),
{
    let b = s.as_str().as_bytes();
    let (x, y) = trim_ws_range(b, 0, b.len());
    assert(b@.subrange(0, b@.len() as int) =~= b@);
    x == y
}

/// Texts joined by newlines.
fn join_strings(v: &Vec<String>) -> (res: String)
    requires
        v.len() > 0,
    ensures
        res@ == join_lines(string_views(v@)),
{
    let ghost sv = string_views(v@);
    let mut out: Vec<u8> = Vec::new();
    let mut i: usize = 0;
    while i < v.len()
        invariant
            i <= v.len(),
            sv == string_views(v@),
            out@ == enc(join_lines(sv.subrange(0, i as int))),
        decreases v.len() - i,
    {
        let ghost o = out@;
        if i > 0 {
            out.push(0x0a);
        }
        push_all(&mut out, v[i].as_str().as_bytes());
        proof {
            let pre = sv.subrange(0, i as int);
            let cur = sv.subrange(0, i + 1);
            assert(cur.drop_last() =~= pre);
            assert(cur.last() == v@[i as int]@);
            vstd::utf8::encode_utf8_decode_utf8(seq!['\n']);
            lemma_enc_append(join_lines(pre), seq!['\n']);
            lemma_enc_append(join_lines(pre) + seq!['\n'], v@[i as int]@);
            if i == 0 {
                assert(pre =~= Seq::<Seq<char>>::empty());
                assert(join_lines(pre) =~= Seq::<char>::empty());
                assert(enc(Seq::<char>::empty()) =~= Seq::<u8>::empty());
                assert(out@ =~= enc(v@[0]@));
            } else {
                lemma_enc_newline();
                assert(out@ =~= enc(join_lines(pre)) + seq![0x0au8] + enc(v@[i as int]@));
            }
        }
        i = i + 1;
    }
    assert(sv.subrange(0, v.len() as int) =~= sv);
    proof {
        vstd::utf8::encode_utf8_valid_utf8(join_lines(sv));
        vstd::utf8::encode_utf8_decode_utf8(join_lines(sv));
    }
    string_from_bytes(out.as_slice())
}

proof fn lemma_enc_append(a: Seq<char>, b: Seq<char>)
    ensures
        enc(a + b) == enc(a) + enc(b),
    decreases a.len(),
{
    if a.len() == 0 {
        assert(a + b =~= b);
        assert(enc(a) =~= Seq::<u8>::empty());
        assert(enc(a) + enc(b) =~= enc(b));
    } else {
        lemma_enc_append(a.drop_first(), b);
        assert((a + b).drop_first() =~= a.drop_first() + b);
        assert((a + b)[0] == a[0]);
        assert(enc(a + b) =~= vstd::utf8::encode_scalar(a[0] as u32) + enc(a.drop_first() + b));
        assert(enc(a) =~= vstd::utf8::encode_scalar(a[0] as u32) + enc(a.drop_first()));
    }
}

proof fn lemma_enc_newline()
    ensures
        enc(seq!['\n']) == seq![0x0au8],
{
    assert(seq!['\n'].drop_first() =~= Seq::<char>::empty());
    assert(enc(Seq::<char>::empty()) =~= Seq::<u8>::empty());
    assert(enc(seq!['\n']) =~= vstd::utf8::encode_scalar('\n' as u32) + enc(Seq::<char>::empty()));
    assert(('\n' as u32) == 10u32);
    assert((10u32 & 0x7Fu32) as u8 == 10u8) by (bit_vector);
    assert(vstd::utf8::encode_scalar(10u32) =~= seq![0x0au8]);
}

/// The text a file's stages start from, as `extract_body` splits it.
fn body_of(file_content: &str) -> (res: String)
    ensures
        res@ == file_body(file_content@),
{
    reveal(file_body);
    let (extras, body0) = extract_body(file_content);
    if extras.len() == 0 {
        proof {
            assert(string_views(extras@).len() == 0);
        }
        return body0;
    }
    let joined = join_strings(&extras);
    let mut out: Vec<u8> = Vec::new();
    push_all(&mut out, joined.as_str().as_bytes());
    out.push(0x0a);
    push_all(&mut out, body0.as_str().as_bytes());
    proof {
        lemma_enc_newline();
        lemma_enc_append(joined@, seq!['\n']);
        lemma_enc_append(joined@ + seq!['\n'], body0@);
        assert(out@ =~= enc(joined@ + seq!['\n'] + body0@));
        vstd::utf8::encode_utf8_valid_utf8(joined@ + seq!['\n'] + body0@);
        vstd::utf8::encode_utf8_decode_utf8(joined@ + seq!['\n'] + body0@);
    }
    string_from_bytes(out.as_slice())
}

/// Twelve recorded stages, one after the other, add `stage_names()`.
proof fn lemma_stage_chain(
    n0: Seq<&'static str>,
    n1: Seq<&'static str>,
    n2: Seq<&'static str>,
    n3: Seq<&'static str>,
    n4: Seq<&'static str>,
    n5: Seq<&'static str>,
    n6: Seq<&'static str>,
    n7: Seq<&'static str>,
    n8: Seq<&'static str>,
    n9: Seq<&'static str>,
    n10: Seq<&'static str>,
    n11: Seq<&'static str>,
    n12: Seq<&'static str>,
)
    requires
        n1 == n0.push("remove_comments"),
        n2 == n1.push("normalize_shorthands"),
        n3 == n2.push("expand_macros"),
        n4 == n3.push("expand_parametric"),
        n5 == n4.push("convert_structure"),
        n6 == n5.push("convert_references"),
        n7 == n6.push("convert_formatting"),
        n8 == n7.push("convert_environments"),
        n9 == n8.push("strip_pre_diacritic"),
        n10 == n9.push("convert_diacritics"),
        n11 == n10.push("convert_symbols"),
        n12 == n11.push("cleanup"),
    ensures
        n12 == n0 + stage_names(),
{
    assert(n12 =~= n0 + stage_names());
}

/// The stages recorded for a file whose processing was cancelled: those
/// up to macro expansion.
pub open spec fn cancelled_stages() -> Seq<&'static str> {
    stage_names().subrange(0, 4)
}

/// Convert a single file to clean readable text, also telling whether the
/// cancel flag stopped it. Uncancelled, the text is that of the whole
/// file (`None` when nothing but blanks remains); cancelled, there is no
/// text, the section labels are untouched and only the stages up to macro
/// expansion are recorded.
fn clean_tex_file(
    file_content: &str,
    ctx: &mut PipelineContext,
    timings: &mut StageTimings,
    cancel: Option<&AtomicBool>,
) -> (res: (Option<String>, bool))
    ensures
        final(ctx).macros.entry_seq() == old(ctx).macros.entry_seq(),
        final(ctx).parametric_macros@ == old(ctx).parametric_macros@,
        final(ctx).custom_theorems.entry_seq() == old(ctx).custom_theorems.entry_seq(),
        res.0 matches Some(s) ==> !blank(s@),
        cancel is None ==> !res.1,
        res.1 ==> res.0 is None && final(ctx).section_label_map.entry_seq() == old(ctx).section_label_map.entry_seq()
            && final(timings).entry_seq().len() == old(timings).entry_seq().len() + 4 && entry_names(
            final(timings).entry_seq(),
        ) == entry_names(old(timings).entry_seq()) + cancelled_stages(),
        !res.1 ==> ({
            let d = expanded_body(file_content@, old(ctx).macros.entry_seq(), macro_views(old(ctx).parametric_macros@));
            let l = converted_body(d, old(ctx).custom_theorems.entry_seq(), old(ctx).section_label_map.entry_seq());
            &&& final(ctx).section_label_map.entry_seq() == inserted_all(
                old(ctx).section_label_map.entry_seq(),
                section_labels(enc(d)),
            )
            &&& text_view(res.0) == (if blank(l) {
                None::<Seq<char>>
            } else {
                Some(l)
            })
            &&& final(timings).entry_seq().len() == old(timings).entry_seq().len() + 12
            &&& entry_names(final(timings).entry_seq()) == entry_names(old(timings).entry_seq()) + stage_names()
        }),
{
    reveal(expanded_body);
    reveal(converted_body);
    let ghost n0 = entry_names(timings.entry_seq());
    let body = body_of(file_content);
    let st = stage_start();
    let a = remove_comments(body.as_str());
    timings.record("remove_comments", &st);
    let ghost n1 = entry_names(timings.entry_seq());
    let st = stage_start();
    let b = normalize_shorthands(a.as_str());
    timings.record("normalize_shorthands", &st);
    let ghost n2 = entry_names(timings.entry_seq());
    let st = stage_start();
    let (c, stopped_simple) = expand_macros_checked(b.as_str(), &ctx.macros, cancel);
    timings.record("expand_macros", &st);
    let ghost n3 = entry_names(timings.entry_seq());
    let st = stage_start();
    let (d, stopped_parametric) = expand_parametric_macros_checked(c.as_str(), ctx.parametric_macros.as_slice(), cancel);
    timings.record("expand_parametric", &st);
    let ghost n4 = entry_names(timings.entry_seq());
    if stopped_simple || stopped_parametric || cancel_requested(cancel) {
        assert(n4 =~= n0 + cancelled_stages());
        return (None, true);
    }
    let st = stage_start();
    let e = convert_structure(d.as_str(), &mut ctx.section_label_map);
    timings.record("convert_structure", &st);
    let ghost n5 = entry_names(timings.entry_seq());
    let st = stage_start();
    let f = convert_references(e.as_str(), &ctx.section_label_map);
    timings.record("convert_references", &st);
    let ghost n6 = entry_names(timings.entry_seq());
    let st = stage_start();
    let g = convert_formatting(f.as_str());
    timings.record("convert_formatting", &st);
    let ghost n7 = entry_names(timings.entry_seq());
    let st = stage_start();
    let h = convert_environments(g.as_str(), &ctx.custom_theorems, None);
    timings.record("convert_environments", &st);
    let ghost n8 = entry_names(timings.entry_seq());
    let st = stage_start();
    let i = strip_pre_diacritic_commands(h.as_str());
    timings.record("strip_pre_diacritic", &st);
    let ghost n9 = entry_names(timings.entry_seq());
    let st = stage_start();
    let j = convert_diacritics(i.as_str());
    timings.record("convert_diacritics", &st);
    let ghost n10 = entry_names(timings.entry_seq());
    let st = stage_start();
    let k = convert_symbols(j.as_str());
    timings.record("convert_symbols", &st);
    let ghost n11 = entry_names(timings.entry_seq());
    let st = stage_start();
    let l = cleanup(k.as_str());
    timings.record("cleanup", &st);
    let ghost n12 = entry_names(timings.entry_seq());
    proof {
        lemma_stage_chain(n0, n1, n2, n3, n4, n5, n6, n7, n8, n9, n10, n11, n12);
    }
    if is_blank(&l) {
        (None, false)
    } else {
        (Some(l), false)
    }
}

/// Gather the macros, parametric macros and theorem environments of every
/// file; `None` when cancelled before the last file.
fn collect_context(tex_files: &[TexFile], cancel: Option<&AtomicBool>) -> (res: Option<PipelineContext>)
    ensures
        cancel is None ==> res is Some,
        res matches Some(ctx) ==> ctx.macros.entry_seq() == macros_of(tex_files@, tex_files@.len() as int)
            && macro_views(ctx.parametric_macros@) == parametrics_of(tex_files@, tex_files@.len() as int)
            && ctx.custom_theorems.entry_seq() == theorems_of(tex_files@, tex_files@.len() as int)
            && ctx.section_label_map.entry_seq().len() == 0,
{
    let mut ctx = PipelineContext {
        macros: TextMap::new(),
        parametric_macros: Vec::new(),
        custom_theorems: TextMap::new(),
        section_label_map: TextMap::new(),
    };
    assert(macro_views(ctx.parametric_macros@) =~= Seq::<MacroView>::empty());
    let mut i: usize = 0;
    while i < tex_files.len()
        invariant
            i <= tex_files.len(),
            ctx.macros.entry_seq() == macros_of(tex_files@, i as int),
            macro_views(ctx.parametric_macros@) == parametrics_of(tex_files@, i as int),
            ctx.custom_theorems.entry_seq() == theorems_of(tex_files@, i as int),
            ctx.section_label_map.entry_seq().len() == 0,
        decreases tex_files.len() - i,
    {
        if cancel_requested(cancel) {
            return None;
        }
        let content = tex_files[i].content.as_str();
        let m = collect_macros(content);
        ctx.macros.extend(&m);
        let ghost before = ctx.parametric_macros@;
        let mut pm = collect_parametric_macros(content);
        let ghost pmv = pm@;
        ctx.parametric_macros.append(&mut pm);
        assert(macro_views(ctx.parametric_macros@) =~= macro_views(before) + macro_views(pmv));
        let th = collect_newtheorems(content);
        ctx.custom_theorems.extend(&th);
        i = i + 1;
    }
    Some(ctx)
}

/// The pipeline stopped after the first `k` root files: `parts` are their
/// results and `names` their stages, possibly followed by the stages of a
/// file cancelled after macro expansion.
#[verifier::opaque]
pub open spec fn stopped_after(
    roots: Seq<(Seq<char>, Seq<char>)>,
    k: int,
    macros: Seq<(Seq<char>, Seq<char>)>,
    pms: Seq<MacroView>,
    theorems: Seq<(Seq<char>, Seq<char>)>,
    parts: Seq<Seq<char>>,
    names: Seq<&'static str>,
) -> bool {
    &&& 0 <= k <= roots.len()
    &&& parts == roots_from(roots, k, macros, pms, theorems).0
    &&& (names == timed_stages(k as nat) || names == timed_stages(k as nat) + cancelled_stages())
}

/// Run each root file through the stages, keeping the non-blank results;
/// stop at the first file the cancel flag interrupts.
fn process_roots(
    ordered: &Vec<TexFile>,
    ctx: &mut PipelineContext,
    timings: &mut StageTimings,
    cancel: Option<&AtomicBool>,
    Ghost(macros): Ghost<Seq<(Seq<char>, Seq<char>)>>,
    Ghost(pms): Ghost<Seq<MacroView>>,
    Ghost(theorems): Ghost<Seq<(Seq<char>, Seq<char>)>>,
) -> (res: (Vec<String>, Ghost<int>))
    requires
        old(ctx).macros.entry_seq() == macros,
        macro_views(old(ctx).parametric_macros@) == pms,
        old(ctx).custom_theorems.entry_seq() == theorems,
        old(ctx).section_label_map.entry_seq().len() == 0,
        old(timings).entry_seq().len() == 0,
    ensures
        forall|m: int| 0 <= m < res.0.len() ==> !blank((#[trigger] res.0@[m])@),
        stopped_after(
            file_views(ordered@),
            res.1@,
            macros,
            pms,
            theorems,
            string_views(res.0@),
            entry_names(final(timings).entry_seq()),
        ),
        cancel is None ==> string_views(res.0@) == roots_from(file_views(ordered@), ordered@.len() as int, macros, pms, theorems).0
            && final(timings).entry_seq().len() == 12 * ordered@.len() && entry_names(final(timings).entry_seq())
            == timed_stages(ordered@.len()),
{
    let ghost fv = file_views(ordered@);
    let mut parts: Vec<String> = Vec::new();
    let mut i: usize = 0;
    assert(string_views(parts@) =~= Seq::<Seq<char>>::empty());
    assert(ctx.section_label_map.entry_seq() =~= Seq::<(Seq<char>, Seq<char>)>::empty());
    assert(entry_names(timings.entry_seq()) =~= timed_stages(0));
    while i < ordered.len()
        invariant
            i <= ordered.len(),
            fv == file_views(ordered@),
            ctx.macros.entry_seq() == macros,
            macro_views(ctx.parametric_macros@) == pms,
            ctx.custom_theorems.entry_seq() == theorems,
            forall|m: int| 0 <= m < parts.len() ==> !blank((#[trigger] parts@[m])@),
            string_views(parts@) == roots_from(fv, i as int, macros, pms, theorems).0,
            ctx.section_label_map.entry_seq() == roots_from(fv, i as int, macros, pms, theorems).1,
            timings.entry_seq().len() == 12 * i,
            entry_names(timings.entry_seq()) == timed_stages(i as nat),
        decreases ordered.len() - i,
    {
        if cancel_requested(cancel) {
            reveal(stopped_after);
            assert(stopped_after(fv, i as int, macros, pms, theorems, string_views(parts@), entry_names(timings.entry_seq())));
            return (parts, Ghost(i as int));
        }
        let ghost pv = string_views(parts@);
        let r = clean_tex_file(ordered[i].content.as_str(), ctx, timings, cancel);
        if r.1 {
            reveal(stopped_after);
            assert(stopped_after(fv, i as int, macros, pms, theorems, string_views(parts@), entry_names(timings.entry_seq())));
            return (parts, Ghost(i as int));
        }
        match r.0 {
            Some(cleaned) => {
                parts.push(cleaned);
                assert(string_views(parts@) =~= pv.push(parts@[parts.len() - 1]@));
            },
            None => {},
        }
        i = i + 1;
    }
    reveal(stopped_after);
    assert(stopped_after(fv, i as int, macros, pms, theorems, string_views(parts@), entry_names(timings.entry_seq())));
    (parts, Ghost(i as int))
}

/// Extraction stopped after the first `k` root files of `files`: the text
/// is that of those files, and the stages recorded are theirs, possibly
/// followed by those of a file cancelled after macro expansion.
#[verifier::opaque]
pub open spec fn extraction_stopped_after(
    files: Seq<TexFile>,
    k: int,
    text: Option<Seq<char>>,
    names: Seq<&'static str>,
) -> bool {
    &&& 0 <= k <= ordered_roots(files).len()
    &&& text == output_text(
        roots_from(
            ordered_roots(files),
            k,
            macros_of(files, files.len() as int),
            parametrics_of(files, files.len() as int),
            theorems_of(files, files.len() as int),
        ).0,
    )
    &&& (names == timed_stages(k as nat) || names == timed_stages(k as nat) + cancelled_stages())
}

/// Extraction stopped after some number of root files (see
/// `extraction_stopped_after`).
#[verifier::opaque]
pub open spec fn extraction_stopped(files: Seq<TexFile>, text: Option<Seq<char>>, names: Seq<&'static str>) -> bool {
    exists|k: int| #[trigger] extraction_stopped_after(files, k, text, names)
}

/// `text` is the extracted text of the first `k` root files of `files`,
/// for some `k`.
#[verifier::opaque]
pub open spec fn text_of_first_roots(files: Seq<TexFile>, text: Option<Seq<char>>) -> bool {
    exists|k: int|
        0 <= k <= ordered_roots(files).len() && text == output_text(
            #[trigger] roots_from(
                ordered_roots(files),
                k,
                macros_of(files, files.len() as int),
                parametrics_of(files, files.len() as int),
                theorems_of(files, files.len() as int),
            ).0,
        )
}

/// Stopped extraction gives the text of some first root files.
pub proof fn lemma_stopped_text(files: Seq<TexFile>, text: Option<Seq<char>>, names: Seq<&'static str>)
    requires
        extraction_stopped(files, text, names),
    ensures
        text_of_first_roots(files, text),
{
    reveal(extraction_stopped);
    reveal(extraction_stopped_after);
    reveal(text_of_first_roots);
    let k = choose|k: int| #[trigger] extraction_stopped_after(files, k, text, names);
    assert(extraction_stopped_after(files, k, text, names));
}

proof fn lemma_stopped_at_start(files: Seq<TexFile>, names: Seq<&'static str>)
    requires
        names.len() == 0,
    ensures
        extraction_stopped(files, None, names),
{
    reveal(extraction_stopped_after);
    reveal(extraction_stopped);
    assert(names =~= timed_stages(0));
    assert(extraction_stopped_after(files, 0, None, names));
}

proof fn lemma_stopped_transfer(
    files: Seq<TexFile>,
    roots: Seq<(Seq<char>, Seq<char>)>,
    k: int,
    parts: Seq<Seq<char>>,
    names: Seq<&'static str>,
)
    requires
        roots == ordered_roots(files),
        stopped_after(
            roots,
            k,
            macros_of(files, files.len() as int),
            parametrics_of(files, files.len() as int),
            theorems_of(files, files.len() as int),
            parts,
            names,
        ),
    ensures
        extraction_stopped(files, output_text(parts), names),
{
    reveal(stopped_after);
    reveal(extraction_stopped_after);
    reveal(extraction_stopped);
    assert(extraction_stopped_after(files, k, output_text(parts), names));
}

/// Cancellable variant of [`extract_text_timed`]. When `cancel` flips to
/// `true`, the pipeline stops between files and macro-expansion passes
/// and returns the text of the files finished so far.
#[verifier::rlimit(40)]
#[verifier::spinoff_prover]
pub fn extract_text_timed_cancellable(tex_files: &[TexFile], cancel: Option<&AtomicBool>) -> (res: ExtractionOutput)
    ensures
        tex_files@.len() == 0 ==> res.text is None && res.timings.entry_seq().len() == 0,
        res.text matches Some(s) ==> !blank(s@),
        extraction_stopped(tex_files@, text_view(res.text), entry_names(res.timings.entry_seq())),
        cancel is None ==> text_view(res.text) == extracted_text(tex_files@) && res.timings.entry_seq().len() == 12
            * ordered_roots(tex_files@).len() && entry_names(res.timings.entry_seq()) == timed_stages(
            ordered_roots(tex_files@).len(),
        ),
{
    if tex_files.len() == 0 {
        let r = ExtractionOutput { text: None, timings: StageTimings::new() };
        assert(ordered_roots(tex_files@).len() == 0);
        proof {
            lemma_stopped_at_start(tex_files@, entry_names(r.timings.entry_seq()));
        }
        return r;
    }
    let mut ctx = match collect_context(tex_files, cancel) {
        Some(c) => c,
        None => {
            let r = ExtractionOutput { text: None, timings: StageTimings::new() };
            proof {
                lemma_stopped_at_start(tex_files@, entry_names(r.timings.entry_seq()));
            }
            return r;
        },
    };
    let ghost macros = macros_of(tex_files@, tex_files@.len() as int);
    let ghost pms = parametrics_of(tex_files@, tex_files@.len() as int);
    let ghost theorems = theorems_of(tex_files@, tex_files@.len() as int);
    let mut timings = StageTimings::new();
    let ordered = resolve_and_order(tex_files);
    let (parts, Ghost(k)) = process_roots(&ordered, &mut ctx, &mut timings, cancel, Ghost(macros), Ghost(pms), Ghost(theorems));
    let text = if parts.len() == 0 {
        None
    } else {
        let joined = join_strings(&parts);
        if is_blank(&joined) {
            None
        } else {
            Some(joined)
        }
    };
    proof {
        assert(string_views(parts@).len() == parts@.len());
        assert(text_view(text) == output_text(string_views(parts@)));
        lemma_stopped_transfer(tex_files@, file_views(ordered@), k, string_views(parts@), entry_names(timings.entry_seq()));
    }
    ExtractionOutput { text, timings }
}

/// Run the full extraction pipeline, returning both text and per-stage
/// timings.
pub fn extract_text_timed(tex_files: &[TexFile]) -> (res: ExtractionOutput)
    ensures
        tex_files@.len() == 0 ==> res.text is None,
        res.text matches Some(s) ==> !blank(s@),
        text_view(res.text) == extracted_text(tex_files@),
        res.timings.entry_seq().len() == 12 * ordered_roots(tex_files@).len(),
        entry_names(res.timings.entry_seq()) == timed_stages(ordered_roots(tex_files@).len()),
{
    extract_text_timed_cancellable(tex_files, None)
}

/// Run the full extraction pipeline on a collection of .tex files: the
/// extracted text, or `None` if extraction produces empty output.
pub fn extract_text(tex_files: &[TexFile]) -> (res: Option<String>)
    ensures
        tex_files@.len() == 0 ==> res is None,
        res matches Some(s) ==> !blank(s@),
        text_view(res) == extracted_text(tex_files@),
{
    extract_text_timed(tex_files).text
}

} // verus!

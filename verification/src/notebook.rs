//! The notebook data model — ordered cells of markdown, code and raw text,
//! with the outputs recorded on code cells — and the parser that extracts it
//! from a JSON document, failing on a missing required field or an
//! unrecognized tag.

use vstd::prelude::*;

verus! {

use vstd::string::StrSliceExecFns;
use vstd::string::StringExecFns;
use crate::text::MultilineString;
use crate::text::str_eq;
use crate::json::JsonV;
use crate::json::JsonValue;
use crate::json::clone_entries;
use crate::json::clone_json;
use crate::json::entries_lookup;
use crate::json::entry_views;
use crate::json::json_obj_get;
use crate::json::json_view;
use crate::json::json_views;
use crate::json::lemma_entry_views_at;
use crate::json::lemma_json_views_at;

broadcast use vstd::std_specs::vec::group_vec_axioms;

/// An ordered notebook document.
#[derive(Debug)]
pub struct Notebook {
    pub cells: Vec<Cell>,
}

/// One notebook cell. Metadata is carried opaquely and ignored by rendering;
/// an execution count is carried but not rendered.
#[derive(Debug)]
pub enum Cell {
    Markdown { source: MultilineString, metadata: Option<JsonValue> },
    Code {
        source: MultilineString,
        outputs: Vec<Output>,
        execution_count: Option<u32>,
        metadata: Option<JsonValue>,
    },
    Raw { source: MultilineString, metadata: Option<JsonValue> },
}

/// One recorded output of a code cell.
#[derive(Debug)]
pub enum Output {
    Stream { name: Option<String>, text: MultilineString },
    DisplayData { data: Vec<(String, JsonValue)>, metadata: Option<JsonValue> },
    ExecuteResult {
        data: Vec<(String, JsonValue)>,
        metadata: Option<JsonValue>,
        execution_count: Option<u32>,
    },
    Error { ename: String, evalue: String, traceback: MultilineString },
}

/// The model of an output: texts as character sequences, MIME bundles as
/// ordered key/value entries. Opaque metadata is not part of the model.
pub ghost enum OutputV {
    Stream { name: Option<Seq<char>>, text: Seq<char> },
    DisplayData { data: Seq<(Seq<char>, JsonV)> },
    ExecuteResult { data: Seq<(Seq<char>, JsonV)>, execution_count: Option<u32> },
    Error { ename: Seq<char>, evalue: Seq<char>, traceback: Seq<char> },
}

/// The model of a cell; sources appear normalized.
pub ghost enum CellV {
    Markdown { source: Seq<char> },
    Code { source: Seq<char>, outputs: Seq<OutputV>, execution_count: Option<u32> },
    Raw { source: Seq<char> },
}

/// The model of a notebook.
pub ghost struct NotebookV {
    pub cells: Seq<CellV>,
}

impl View for Output {
    type V = OutputV;

    open spec fn view(&self) -> OutputV {
        match self {
            Output::Stream { name, text } => OutputV::Stream {
                name: match name {
                    Some(s) => Some(s@),
                    None => None,
                },
                text: text@,
            },
            Output::DisplayData { data, metadata } => OutputV::DisplayData {
                data: entry_views(*data, data@.len() as int),
            },
            Output::ExecuteResult { data, metadata, execution_count } => OutputV::ExecuteResult {
                data: entry_views(*data, data@.len() as int),
                execution_count: *execution_count,
            },
            Output::Error { ename, evalue, traceback } => OutputV::Error {
                ename: ename@,
                evalue: evalue@,
                traceback: traceback@,
            },
        }
    }
}

/// The models of a sequence of outputs.
pub open spec fn outputs_view(s: Seq<Output>) -> Seq<OutputV> {
    s.map_values(|o: Output| o@)
}

impl View for Cell {
    type V = CellV;

    open spec fn view(&self) -> CellV {
        match self {
            Cell::Markdown { source, metadata } => CellV::Markdown { source: source@ },
            Cell::Code { source, outputs, execution_count, metadata } => CellV::Code {
                source: source@,
                outputs: outputs_view(outputs@),
                execution_count: *execution_count,
            },
            Cell::Raw { source, metadata } => CellV::Raw { source: source@ },
        }
    }
}

/// The models of a sequence of cells.
pub open spec fn cells_view(s: Seq<Cell>) -> Seq<CellV> {
    s.map_values(|c: Cell| c@)
}

impl View for Notebook {
    type V = NotebookV;

    open spec fn view(&self) -> NotebookV {
        NotebookV { cells: cells_view(self.cells@) }
    }
}

/// Whether `c` is a decimal digit.
pub open spec fn is_digit(c: char) -> bool {
    '0' as int <= c as int <= '9' as int
}

/// The value of a decimal digit.
pub open spec fn digit_val(c: char) -> int {
    c as int - '0' as int
}

/// The value of a sequence of decimal digits, most significant first.
pub open spec fn dec_val(s: Seq<char>) -> int
    decreases s.len(),
{
    if s.len() == 0 {
        0
    } else {
        dec_val(s.drop_last()) * 10 + digit_val(s.last())
    }
}

/// Ten to the `n`.
pub open spec fn pow10(n: nat) -> int
    decreases n,
{
    if n == 0 {
        1
    } else {
        10 * pow10((n - 1) as nat)
    }
}

/// Whether `s` is the canonical decimal text of a value that fits in `u32`:
/// one to ten digits (a canonical JSON integer has no leading zeros), with a
/// value of at most `u32::MAX`.
pub open spec fn is_u32_text(s: Seq<char>) -> bool {
    &&& 1 <= s.len() <= 10
    &&& forall|i: int| 0 <= i < s.len() ==> is_digit(#[trigger] s[i])
    &&& dec_val(s) <= u32::MAX
}

pub proof fn lemma_pow10_pos_mono(a: nat, b: nat)
    requires
        a <= b,
    ensures
        1 <= pow10(a) <= pow10(b),
    decreases b,
{
    if b == 0 {
    } else if a == b {
        lemma_pow10_pos_mono(0, (b - 1) as nat);
    } else {
        lemma_pow10_pos_mono(a, (b - 1) as nat);
    }
}

pub proof fn lemma_dec_val_bound(s: Seq<char>)
    requires
        forall|i: int| 0 <= i < s.len() ==> is_digit(#[trigger] s[i]),
    ensures
        0 <= dec_val(s) < pow10(s.len()),
    decreases s.len(),
{
    if s.len() == 0 {
    } else {
        lemma_dec_val_bound(s.drop_last());
        let pre = dec_val(s.drop_last());
        let d = digit_val(s.last());
        let p = pow10((s.len() - 1) as nat);
        assert(is_digit(s[s.len() - 1]));
        assert(0 <= d <= 9);
        assert(pre * 10 + d < 10 * p) by (nonlinear_arith)
            requires
                0 <= pre < p,
                0 <= d <= 9,
        ;
        assert(pow10(s.len()) == 10 * p);
    }
}

/// Parses the canonical decimal text of a `u32`, or rejects it.
pub fn parse_u32_text(s: &str) -> (r: Option<u32>)
    ensures
        r is Some <==> is_u32_text(s@),
        r is Some ==> r->0 as int == dec_val(s@),
{
    let n = s.unicode_len();
    if n == 0 || n > 10 {
        return None;
    }
    let mut acc: u64 = 0;
    let mut i: usize = 0;
    while i < n
        invariant
            n == s@.len(),
            1 <= n <= 10,
            i <= n,
            forall|j: int| 0 <= j < i ==> is_digit(#[trigger] s@[j]),
            acc as int == dec_val(s@.take(i as int)),
            (acc as int) < pow10(i as nat),
        decreases n - i,
    {
        let c = s.get_char(i);
        let cv = c as u32;
        if cv < 48 || cv > 57 {
            return None;
        }
        let d: u64 = (cv - 48) as u64;
        proof {
            assert(is_digit(s@[i as int]));
            assert(d as int == digit_val(s@[i as int]));
            lemma_pow10_pos_mono(i as nat, 9);
            assert(acc as int * 10 + d < pow10((i + 1) as nat)) by (nonlinear_arith)
                requires
                    (acc as int) < pow10(i as nat),
                    0 <= d <= 9,
                    pow10((i + 1) as nat) == 10 * pow10(i as nat),
            ;
            assert(pow10(9 as nat) == 1000000000) by {
                reveal_with_fuel(pow10, 11);
            }
            assert(s@.take(i + 1).drop_last() =~= s@.take(i as int));
            assert(s@.take(i + 1).last() == s@[i as int]);
        }
        acc = acc * 10 + d;
        i = i + 1;
    }
    proof {
        assert(s@.take(n as int) =~= s@);
    }
    if acc > 0xffff_ffffu64 {
        return None;
    }
    Some(acc as u32)
}

/// The normalized text of the first `n` fragments of a text-or-array field;
/// `None` when a fragment is not a string.
pub open spec fn spec_frags(items: Seq<JsonV>, n: int) -> Option<Seq<char>>
    decreases n,
{
    if n <= 0 {
        Some(Seq::empty())
    } else {
        match (spec_frags(items, n - 1), items[n - 1]) {
            (Some(pre), JsonV::Text(s)) => Some(pre + s),
            _ => None,
        }
    }
}

/// The normalized text of a field that must be a string or an array of
/// strings.
pub open spec fn spec_ms_text(v: JsonV) -> Option<Seq<char>> {
    match v {
        JsonV::Text(s) => Some(s),
        JsonV::Arr(items) => spec_frags(items, items.len() as int),
        _ => None,
    }
}

/// The parse of an optional execution count field: absent or null counts as
/// none; a number must be the decimal text of a `u32`; anything else is a
/// parse failure.
pub open spec fn spec_exec_count(f: Option<JsonV>) -> Option<Option<u32>> {
    match f {
        None => Some(None),
        Some(JsonV::Null) => Some(None),
        Some(JsonV::Num(t)) => if is_u32_text(t) {
            Some(Some(dec_val(t) as u32))
        } else {
            None
        },
        _ => None,
    }
}

/// The parse of one output object, dispatched on its `output_type` tag.
pub open spec fn spec_parse_output(v: JsonV) -> Option<OutputV> {
    match v {
        JsonV::Obj(entries, compact) => match entries_lookup(entries, "output_type"@) {
            Some(JsonV::Text(tag)) => if tag == "stream"@ {
                let name = match entries_lookup(entries, "name"@) {
                    None => Some(None),
                    Some(JsonV::Null) => Some(None),
                    Some(JsonV::Text(s)) => Some(Some(s)),
                    _ => None,
                };
                let text = match entries_lookup(entries, "text"@) {
                    Some(tv) => spec_ms_text(tv),
                    None => None,
                };
                match (name, text) {
                    (Some(nm), Some(t)) => Some(OutputV::Stream { name: nm, text: t }),
                    _ => None,
                }
            } else if tag == "display_data"@ {
                match entries_lookup(entries, "data"@) {
                    Some(JsonV::Obj(d, dc)) => Some(OutputV::DisplayData { data: d }),
                    _ => None,
                }
            } else if tag == "execute_result"@ {
                match (
                    entries_lookup(entries, "data"@),
                    spec_exec_count(entries_lookup(entries, "execution_count"@)),
                ) {
                    (Some(JsonV::Obj(d, dc)), Some(ec)) => Some(
                        OutputV::ExecuteResult { data: d, execution_count: ec },
                    ),
                    _ => None,
                }
            } else if tag == "error"@ {
                match (
                    entries_lookup(entries, "ename"@),
                    entries_lookup(entries, "evalue"@),
                    entries_lookup(entries, "traceback"@),
                ) {
                    (Some(JsonV::Text(en)), Some(JsonV::Text(ev)), Some(tb)) => match spec_ms_text(
                        tb,
                    ) {
                        Some(t) => Some(OutputV::Error { ename: en, evalue: ev, traceback: t }),
                        None => None,
                    },
                    _ => None,
                }
            } else {
                None
            },
            _ => None,
        },
        _ => None,
    }
}

/// The parses of the first `n` outputs; `None` as soon as one fails.
pub open spec fn spec_parse_outputs(items: Seq<JsonV>, n: int) -> Option<Seq<OutputV>>
    decreases n,
{
    if n <= 0 {
        Some(Seq::empty())
    } else {
        match (spec_parse_outputs(items, n - 1), spec_parse_output(items[n - 1])) {
            (Some(pre), Some(o)) => Some(pre.push(o)),
            _ => None,
        }
    }
}

/// The parse of one cell object, dispatched on its `cell_type` tag.
pub open spec fn spec_parse_cell(v: JsonV) -> Option<CellV> {
    match v {
        JsonV::Obj(entries, compact) => match entries_lookup(entries, "cell_type"@) {
            Some(JsonV::Text(tag)) => {
                let source = match entries_lookup(entries, "source"@) {
                    Some(sv) => spec_ms_text(sv),
                    None => None,
                };
                if tag == "markdown"@ {
                    match source {
                        Some(src) => Some(CellV::Markdown { source: src }),
                        None => None,
                    }
                } else if tag == "raw"@ {
                    match source {
                        Some(src) => Some(CellV::Raw { source: src }),
                        None => None,
                    }
                } else if tag == "code"@ {
                    let outputs = match entries_lookup(entries, "outputs"@) {
                        Some(JsonV::Arr(items)) => spec_parse_outputs(items, items.len() as int),
                        _ => None,
                    };
                    match (
                        source,
                        outputs,
                        spec_exec_count(entries_lookup(entries, "execution_count"@)),
                    ) {
                        (Some(src), Some(outs), Some(ec)) => Some(
                            CellV::Code { source: src, outputs: outs, execution_count: ec },
                        ),
                        _ => None,
                    }
                } else {
                    None
                }
            },
            _ => None,
        },
        _ => None,
    }
}

/// The parses of the first `n` cells; `None` as soon as one fails.
pub open spec fn spec_parse_cells(items: Seq<JsonV>, n: int) -> Option<Seq<CellV>>
    decreases n,
{
    if n <= 0 {
        Some(Seq::empty())
    } else {
        match (spec_parse_cells(items, n - 1), spec_parse_cell(items[n - 1])) {
            (Some(pre), Some(c)) => Some(pre.push(c)),
            _ => None,
        }
    }
}

/// The parse of a whole notebook document: an object whose `cells` field is
/// an array of cells that all parse.
pub open spec fn spec_parse(v: JsonV) -> Option<NotebookV> {
    match v {
        JsonV::Obj(entries, compact) => match entries_lookup(entries, "cells"@) {
            Some(JsonV::Arr(items)) => match spec_parse_cells(items, items.len() as int) {
                Some(cs) => Some(NotebookV { cells: cs }),
                None => None,
            },
            _ => None,
        },
        _ => None,
    }
}

pub proof fn lemma_spec_frags_none(items: Seq<JsonV>, i: int, n: int)
    requires
        0 <= i <= n,
        spec_frags(items, i) is None,
    ensures
        spec_frags(items, n) is None,
    decreases n - i,
{
    if n > i {
        lemma_spec_frags_none(items, i, n - 1);
    }
}

pub proof fn lemma_spec_parse_outputs_none(items: Seq<JsonV>, i: int, n: int)
    requires
        0 <= i <= n,
        spec_parse_outputs(items, i) is None,
    ensures
        spec_parse_outputs(items, n) is None,
    decreases n - i,
{
    if n > i {
        lemma_spec_parse_outputs_none(items, i, n - 1);
    }
}

pub proof fn lemma_spec_parse_cells_none(items: Seq<JsonV>, i: int, n: int)
    requires
        0 <= i <= n,
        spec_parse_cells(items, i) is None,
    ensures
        spec_parse_cells(items, n) is None,
    decreases n - i,
{
    if n > i {
        lemma_spec_parse_cells_none(items, i, n - 1);
    }
}

pub proof fn lemma_frags_text_prefix(a: Seq<String>, b: Seq<String>, n: int)
    requires
        forall|j: int| 0 <= j < n ==> a[j] == b[j],
    ensures
        crate::text::frags_text(a, n) == crate::text::frags_text(b, n),
    decreases n,
{
    if n > 0 {
        lemma_frags_text_prefix(a, b, n - 1);
    }
}

/// Parses a string-or-array-of-strings field.
fn parse_ms(v: &JsonValue) -> (r: Option<MultilineString>)
    ensures
        r is Some <==> spec_ms_text(v@) is Some,
        r is Some ==> r->0@ == spec_ms_text(v@)->0,
{
    match v {
        JsonValue::Text(s) => Some(MultilineString::Single(s.clone())),
        JsonValue::Arr(items) => {
            let ghost vs = json_views(*items, items@.len() as int);
            proof {
                lemma_json_views_at(*items, items@.len() as int);
            }
            let mut frags: Vec<String> = Vec::new();
            let mut i: usize = 0;
            while i < items.len()
                invariant
                    *v == JsonValue::Arr(*items),
                    vs == json_views(*items, items@.len() as int),
                    vs.len() == items@.len(),
                    forall|j: int| 0 <= j < vs.len() ==> vs[j] == json_view(items@[j]),
                    i <= items@.len(),
                    frags@.len() == i,
                    spec_frags(vs, i as int) == Some(
                        crate::text::frags_text(frags@, frags@.len() as int),
                    ),
                decreases items@.len() - i,
            {
                match &items[i] {
                    JsonValue::Text(s) => {
                        let ghost old_frags = frags@;
                        frags.push(s.clone());
                        proof {
                            lemma_frags_text_prefix(frags@, old_frags, i as int);
                        }
                    }
                    _ => {
                        proof {
                            assert(spec_frags(vs, i as int + 1) is None);
                            lemma_spec_frags_none(vs, i as int + 1, vs.len() as int);
                        }
                        return None;
                    }
                }
                i = i + 1;
            }
            Some(MultilineString::Multi(frags))
        }
        _ => None,
    }
}

/// Parses an optional execution count entry of `entries`.
fn parse_exec_count(entries: &Vec<(String, JsonValue)>) -> (r: Option<Option<u32>>)
    ensures
        ({
            let f = spec_exec_count(
                entries_lookup(entry_views(*entries, entries@.len() as int), "execution_count"@),
            );
            &&& r is Some <==> f is Some
            &&& r is Some ==> r->0 == f->0
        }),
{
    match json_obj_get(entries, "execution_count") {
        None => Some(None),
        Some(jv) => match jv {
            JsonValue::Null => Some(None),
            JsonValue::Num(t) => match parse_u32_text(t.as_str()) {
                Some(n) => Some(Some(n)),
                None => None,
            },
            _ => None,
        },
    }
}

/// Parses one output object.
fn parse_output(v: &JsonValue) -> (r: Option<Output>)
    ensures
        r is Some <==> spec_parse_output(v@) is Some,
        r is Some ==> r->0@ == spec_parse_output(v@)->0,
{
    let entries = match v {
        JsonValue::Obj(entries, _) => entries,
        _ => {
            return None;
        },
    };
    let tag = match json_obj_get(entries, "output_type") {
        Some(JsonValue::Text(tag)) => tag,
        _ => {
            return None;
        },
    };
    if str_eq(tag.as_str(), "stream") {
        let name: Option<String> = match json_obj_get(entries, "name") {
            None => None,
            Some(JsonValue::Null) => None,
            Some(JsonValue::Text(s)) => Some(s.clone()),
            _ => {
                return None;
            },
        };
        let text = match json_obj_get(entries, "text") {
            Some(tv) => match parse_ms(tv) {
                Some(t) => t,
                None => {
                    return None;
                },
            },
            None => {
                return None;
            },
        };
        Some(Output::Stream { name, text })
    } else if str_eq(tag.as_str(), "display_data") {
        match json_obj_get(entries, "data") {
            Some(JsonValue::Obj(d, _)) => Some(
                Output::DisplayData { data: clone_entries(d), metadata: None },
            ),
            _ => None,
        }
    } else if str_eq(tag.as_str(), "execute_result") {
        let data = match json_obj_get(entries, "data") {
            Some(JsonValue::Obj(d, _)) => clone_entries(d),
            _ => {
                return None;
            },
        };
        match parse_exec_count(entries) {
            Some(ec) => Some(
                Output::ExecuteResult { data, metadata: None, execution_count: ec },
            ),
            None => None,
        }
    } else if str_eq(tag.as_str(), "error") {
        let ename = match json_obj_get(entries, "ename") {
            Some(JsonValue::Text(s)) => s.clone(),
            _ => {
                return None;
            },
        };
        let evalue = match json_obj_get(entries, "evalue") {
            Some(JsonValue::Text(s)) => s.clone(),
            _ => {
                return None;
            },
        };
        let traceback = match json_obj_get(entries, "traceback") {
            Some(tv) => match parse_ms(tv) {
                Some(t) => t,
                None => {
                    return None;
                },
            },
            None => {
                return None;
            },
        };
        Some(Output::Error { ename, evalue, traceback })
    } else {
        None
    }
}

/// Parses an array of outputs.
fn parse_outputs(items: &Vec<JsonValue>) -> (r: Option<Vec<Output>>)
    ensures
        ({
            let p = spec_parse_outputs(
                json_views(*items, items@.len() as int),
                items@.len() as int,
            );
            &&& r is Some <==> p is Some
            &&& r is Some ==> outputs_view(r->0@) == p->0
        }),
{
    let ghost vs = json_views(*items, items@.len() as int);
    proof {
        lemma_json_views_at(*items, items@.len() as int);
    }
    let mut acc: Vec<Output> = Vec::new();
    let mut i: usize = 0;
    while i < items.len()
        invariant
            vs == json_views(*items, items@.len() as int),
            vs.len() == items@.len(),
            forall|j: int| 0 <= j < vs.len() ==> vs[j] == json_view(items@[j]),
            i <= items@.len(),
            acc@.len() == i,
            spec_parse_outputs(vs, i as int) == Some(outputs_view(acc@)),
        decreases items@.len() - i,
    {
        match parse_output(&items[i]) {
            Some(o) => {
                let ghost old_acc = acc@;
                acc.push(o);
                proof {
                    assert(outputs_view(acc@) =~= outputs_view(old_acc).push(acc@[i as int]@));
                }
            }
            None => {
                proof {
                    assert(spec_parse_outputs(vs, i as int + 1) is None);
                    lemma_spec_parse_outputs_none(vs, i as int + 1, vs.len() as int);
                }
                return None;
            }
        }
        i = i + 1;
    }
    Some(acc)
}

/// Parses one cell object.
fn parse_cell(v: &JsonValue) -> (r: Option<Cell>)
    ensures
        r is Some <==> spec_parse_cell(v@) is Some,
        r is Some ==> r->0@ == spec_parse_cell(v@)->0,
{
    let entries = match v {
        JsonValue::Obj(entries, _) => entries,
        _ => {
            return None;
        },
    };
    let tag = match json_obj_get(entries, "cell_type") {
        Some(JsonValue::Text(tag)) => tag,
        _ => {
            return None;
        },
    };
    let source = match json_obj_get(entries, "source") {
        Some(sv) => parse_ms(sv),
        None => None,
    };
    let metadata = match json_obj_get(entries, "metadata") {
        None => None,
        Some(JsonValue::Null) => None,
        Some(mv) => Some(clone_json(mv)),
    };
    if str_eq(tag.as_str(), "markdown") {
        match source {
            Some(src) => Some(Cell::Markdown { source: src, metadata }),
            None => None,
        }
    } else if str_eq(tag.as_str(), "raw") {
        match source {
            Some(src) => Some(Cell::Raw { source: src, metadata }),
            None => None,
        }
    } else if str_eq(tag.as_str(), "code") {
        let src = match source {
            Some(src) => src,
            None => {
                return None;
            },
        };
        let outputs = match json_obj_get(entries, "outputs") {
            Some(JsonValue::Arr(items)) => match {
                proof {
                    lemma_json_views_at(*items, items@.len() as int);
                }
                parse_outputs(items)
            } {
                Some(outs) => outs,
                None => {
                    return None;
                },
            },
            _ => {
                return None;
            },
        };
        match parse_exec_count(entries) {
            Some(ec) => Some(
                Cell::Code { source: src, outputs, execution_count: ec, metadata },
            ),
            None => None,
        }
    } else {
        None
    }
}

/// Parses an array of cells.
fn parse_cells(items: &Vec<JsonValue>) -> (r: Option<Vec<Cell>>)
    ensures
        ({
            let p = spec_parse_cells(json_views(*items, items@.len() as int), items@.len() as int);
            &&& r is Some <==> p is Some
            &&& r is Some ==> cells_view(r->0@) == p->0
        }),
{
    let ghost vs = json_views(*items, items@.len() as int);
    proof {
        lemma_json_views_at(*items, items@.len() as int);
    }
    let mut acc: Vec<Cell> = Vec::new();
    let mut i: usize = 0;
    while i < items.len()
        invariant
            vs == json_views(*items, items@.len() as int),
            vs.len() == items@.len(),
            forall|j: int| 0 <= j < vs.len() ==> vs[j] == json_view(items@[j]),
            i <= items@.len(),
            acc@.len() == i,
            spec_parse_cells(vs, i as int) == Some(cells_view(acc@)),
        decreases items@.len() - i,
    {
        match parse_cell(&items[i]) {
            Some(c) => {
                let ghost old_acc = acc@;
                acc.push(c);
                proof {
                    assert(cells_view(acc@) =~= cells_view(old_acc).push(acc@[i as int]@));
                }
            }
            None => {
                proof {
                    assert(spec_parse_cells(vs, i as int + 1) is None);
                    lemma_spec_parse_cells_none(vs, i as int + 1, vs.len() as int);
                }
                return None;
            }
        }
        i = i + 1;
    }
    Some(acc)
}

/// Parses a whole notebook document, or reports why it is malformed.
pub fn parse_notebook(doc: &JsonValue) -> (r: Result<Notebook, String>)
    ensures
        r is Ok <==> spec_parse(doc@) is Some,
        r is Ok ==> r->Ok_0@ == spec_parse(doc@)->Some_0,
{
    let entries = match doc {
        JsonValue::Obj(entries, _) => entries,
        _ => {
            return Err(String::from_str("notebook is not a JSON object"));
        },
    };
    match json_obj_get(entries, "cells") {
        Some(JsonValue::Arr(items)) => match {
            proof {
                lemma_json_views_at(*items, items@.len() as int);
            }
            parse_cells(items)
        } {
            Some(cells) => Ok(Notebook { cells }),
            None => Err(String::from_str("a cell or output does not match the notebook shape")),
        },
        _ => Err(String::from_str("notebook has no cells list")),
    }
}

} // verus!

//! The conversion engine's entry points: parse a notebook document, size
//! the output buffer, and render every cell in order into one Markdown
//! string, collecting the asset files to write.

use vstd::prelude::*;

verus! {

use vstd::string::StringExecFns;
use crate::json::JsonValue;
use crate::json::entry_views;
use crate::notebook::Cell;
use crate::notebook::Output;
use crate::notebook::parse_notebook;
use crate::notebook::spec_parse;
use crate::render::AssetFile;
use crate::render::assets_view;
use crate::render::get_resolved;
use crate::render::process_cell;
use crate::render::resolved;
use crate::render::spec_cells_fragment;
use crate::render::lemma_spec_cells_fragment_err;
use crate::text::byte_len;
use crate::text::ms_byte_len;

broadcast use vstd::std_specs::vec::group_vec_axioms;

/// Configuration options for notebook conversion.
#[derive(Debug, Clone)]
pub struct ConvertOptions {
    /// Embed images as base64 data URIs in the Markdown instead of writing
    /// asset files.
    pub embed_images: bool,
}

impl Default for ConvertOptions {
    fn default() -> (r: Self)
        ensures
            r == (ConvertOptions { embed_images: false }),
    {
        ConvertOptions { embed_images: false }
    }
}

/// Why a conversion failed.
#[derive(Debug)]
pub enum ConvertError {
    /// The notebook JSON is malformed or does not match the expected
    /// cell/output shape.
    Parse(String),
    /// An asset payload could not be handled: its base64 text does not
    /// decode. The caller that writes assets out reports its filesystem
    /// failures under this variant as well.
    AssetIo(String),
}

impl ConvertError {
    /// The message describing the failure.
    pub fn message(&self) -> (r: String)
        ensures
            self is Parse ==> r@ == self->Parse_0@,
            self is AssetIo ==> r@ == self->AssetIo_0@,
    {
        match self {
            ConvertError::Parse(m) => m.clone(),
            ConvertError::AssetIo(m) => m.clone(),
        }
    }
}

/// The product of one conversion: the Markdown document, and the asset
/// files for the caller to write when images are externalized.
#[derive(Debug)]
pub struct Conversion {
    pub markdown: String,
    pub assets: Vec<AssetFile>,
}

/// The reference-path prefix of an externalized asset: the assets
/// directory's final path component followed by `/`, or nothing when the
/// directory has no usable name.
pub open spec fn spec_prefix(d: Option<&str>) -> Seq<char> {
    match d {
        Some(s) => s@ + "/"@,
        None => Seq::empty(),
    }
}

/// The buffer-size estimate of one rich-display bundle.
pub open spec fn est_data(data: Vec<(String, JsonValue)>) -> nat {
    let dv = entry_views(data, data@.len() as int);
    if resolved(dv, "text/markdown"@) is Some {
        byte_len(resolved(dv, "text/markdown"@)->0) + 4
    } else if resolved(dv, "text/plain"@) is Some {
        byte_len(resolved(dv, "text/plain"@)->0) + 8
    } else if resolved(dv, "image/png"@) is Some {
        byte_len(resolved(dv, "image/png"@)->0) + 32
    } else {
        16
    }
}

/// The buffer-size estimate of one output.
pub open spec fn est_output(o: Output) -> nat {
    match o {
        Output::Stream { name, text } => ms_byte_len(&text) + 8,
        Output::DisplayData { data, metadata } => est_data(data),
        Output::ExecuteResult { data, metadata, execution_count } => est_data(data),
        Output::Error { ename, evalue, traceback } => ms_byte_len(&traceback) + 16,
    }
}

/// The summed estimates of the first `n` outputs.
pub open spec fn est_outputs(outs: Seq<Output>, n: int) -> nat
    decreases n,
{
    if n <= 0 {
        0
    } else {
        est_outputs(outs, n - 1) + est_output(outs[n - 1])
    }
}

/// The buffer-size estimate of one cell: its source plus fencing overhead,
/// and its outputs.
pub open spec fn est_cell(c: Cell) -> nat {
    match c {
        Cell::Markdown { source, metadata } => ms_byte_len(&source) + 4,
        Cell::Raw { source, metadata } => ms_byte_len(&source) + 4,
        Cell::Code { source, outputs, execution_count, metadata } => ms_byte_len(&source) + 12
            + est_outputs(outputs@, outputs@.len() as int),
    }
}

/// The summed estimates of the first `n` cells.
pub open spec fn est_cells(cells: Seq<Cell>, n: int) -> nat
    decreases n,
{
    if n <= 0 {
        0
    } else {
        est_cells(cells, n - 1) + est_cell(cells[n - 1])
    }
}

/// Addition that saturates at `usize::MAX`.
fn sat_add(a: usize, b: usize) -> (r: usize)
    ensures
        r == if a + b <= usize::MAX {
            a + b
        } else {
            usize::MAX as int
        },
{
    if a > usize::MAX - b {
        usize::MAX
    } else {
        a + b
    }
}

/// Estimates the Markdown size of a rich-display bundle.
fn est_data_len(data: &Vec<(String, JsonValue)>) -> (r: usize)
    ensures
        est_data(*data) <= usize::MAX ==> r == est_data(*data),
{
    if let Some(s) = get_resolved(data, "text/markdown") {
        sat_add(s.as_str().len(), 4)
    } else if let Some(s) = get_resolved(data, "text/plain") {
        sat_add(s.as_str().len(), 8)
    } else if let Some(s) = get_resolved(data, "image/png") {
        sat_add(s.as_str().len(), 32)
    } else {
        16
    }
}

/// Estimates the Markdown size of one output.
pub fn estimate_output_len(output: &Output) -> (r: usize)
    ensures
        est_output(*output) <= usize::MAX ==> r == est_output(*output),
{
    match output {
        Output::Stream { name, text } => sat_add(text.len(), 8),
        Output::DisplayData { data, metadata } => est_data_len(data),
        Output::ExecuteResult { data, metadata, execution_count } => est_data_len(data),
        Output::Error { ename, evalue, traceback } => sat_add(traceback.len(), 16),
    }
}

/// Estimates the Markdown size of one cell.
pub fn estimate_cell_len(cell: &Cell) -> (r: usize)
    ensures
        est_cell(*cell) <= usize::MAX ==> r == est_cell(*cell),
{
    match cell {
        Cell::Markdown { source, metadata } => sat_add(source.len(), 4),
        Cell::Raw { source, metadata } => sat_add(source.len(), 4),
        Cell::Code { source, outputs, execution_count, metadata } => {
            let mut sum = sat_add(source.len(), 12);
            let ghost base = ms_byte_len(source) + 12;
            let mut i: usize = 0;
            while i < outputs.len()
                invariant
                    base == ms_byte_len(source) + 12,
                    i <= outputs@.len(),
                    base + est_outputs(outputs@, i as int) <= usize::MAX ==> sum == base
                        + est_outputs(outputs@, i as int),
                decreases outputs@.len() - i,
            {
                let ol = estimate_output_len(&outputs[i]);
                sum = sat_add(sum, ol);
                i = i + 1;
            }
            sum
        }
    }
}

/// Relies on `String::with_capacity`: returns an empty string; the
/// capacity is a performance hint only.
#[verifier::external_body]
fn string_with_capacity(capacity: usize) -> (r: String)
    ensures
        r@ == Seq::<char>::empty(),
{
    String::with_capacity(capacity)
}

/// Converts a parsed notebook document to Markdown with custom options.
///
/// The document either fails to parse (a `Parse` error), fails on an image
/// payload that is not valid base64 (an `AssetIo` error), or renders in
/// full: the Markdown is the cells' fragments in order, and the assets are
/// the image files to write, with counter values assigned in emission order
/// from zero.
#[verifier::rlimit(60)]
pub fn convert_notebook_to_md_with_options(
    doc: &JsonValue,
    assets_dir_name: Option<&str>,
    options: &ConvertOptions,
) -> (r: Result<Conversion, ConvertError>)
    ensures
        match spec_parse(doc@) {
            None => r is Err && r->Err_0 is Parse,
            Some(nb) => match spec_cells_fragment(
                nb.cells,
                *options,
                spec_prefix(assets_dir_name),
                0,
            ) {
                Ok(step) => r is Ok && r->Ok_0.markdown@ == step.md && assets_view(r->Ok_0.assets@)
                    == step.assets,
                Err(e) => r is Err && r->Err_0 is AssetIo,
            },
        },
{
    let notebook = match parse_notebook(doc) {
        Ok(nb) => nb,
        Err(m) => {
            return Err(ConvertError::Parse(m));
        },
    };
    let prefix = match assets_dir_name {
        Some(d) => {
            let mut p = String::from_str(d);
            p.append("/");
            p
        },
        None => String::new(),
    };
    let mut est: usize = 0;
    let mut i: usize = 0;
    while i < notebook.cells.len()
        invariant
            i <= notebook.cells@.len(),
        decreases notebook.cells@.len() - i,
    {
        let cl = estimate_cell_len(&notebook.cells[i]);
        est = sat_add(est, cl);
        i = i + 1;
    }
    let mut md = string_with_capacity(est);
    let mut assets: Vec<AssetFile> = Vec::new();
    let ghost cellsv = notebook@.cells;
    proof {
        assert(cellsv.subrange(0, 0) =~= Seq::<crate::notebook::CellV>::empty());
    }
    let mut j: usize = 0;
    while j < notebook.cells.len()
        invariant
            spec_parse(doc@) == Some(notebook@),
            cellsv == notebook@.cells,
            cellsv.len() == notebook.cells@.len(),
            prefix@ == spec_prefix(assets_dir_name),
            j <= notebook.cells@.len(),
            ({
                match spec_cells_fragment(cellsv.subrange(0, j as int), *options, prefix@, 0) {
                    Ok(pre) => md@ == pre.md && assets_view(assets@) == pre.assets,
                    Err(e) => false,
                }
            }),
        decreases notebook.cells@.len() - j,
    {
        let ghost pre = spec_cells_fragment(cellsv.subrange(0, j as int), *options, prefix@, 0)->Ok_0;
        proof {
            assert(cellsv[j as int] == notebook.cells@[j as int]@);
            assert(assets_view(assets@).len() == assets@.len());
            assert(assets@.len() == pre.assets.len());
        }
        match process_cell(&mut md, &notebook.cells[j], prefix.as_str(), &mut assets, options) {
            Ok(u) => {
                proof {
                    assert(cellsv.subrange(0, j as int + 1).drop_last() =~= cellsv.subrange(
                        0,
                        j as int,
                    ));
                    assert(cellsv.subrange(0, j as int + 1).last() == cellsv[j as int]);
                }
            }
            Err(e) => {
                proof {
                    assert(cellsv.subrange(0, j as int + 1).drop_last() =~= cellsv.subrange(
                        0,
                        j as int,
                    ));
                    assert(cellsv.subrange(0, j as int + 1).last() == cellsv[j as int]);
                    assert(spec_cells_fragment(
                        cellsv.subrange(0, j as int + 1),
                        *options,
                        prefix@,
                        0,
                    ) is Err);
                    lemma_spec_cells_fragment_err(
                        cellsv,
                        *options,
                        prefix@,
                        0,
                        j as int + 1,
                        cellsv.len() as int,
                    );
                    assert(cellsv.subrange(0, cellsv.len() as int) =~= cellsv);
                }
                return Err(e);
            }
        }
        j = j + 1;
    }
    proof {
        assert(cellsv.subrange(0, cellsv.len() as int) =~= cellsv);
    }
    Ok(Conversion { markdown: md, assets })
}

/// Converts a parsed notebook document to Markdown with the default
/// options: images are externalized as asset files.
pub fn convert_notebook_to_md(doc: &JsonValue, assets_dir_name: Option<&str>) -> (r: Result<
    Conversion,
    ConvertError,
>)
    ensures
        match spec_parse(doc@) {
            None => r is Err && r->Err_0 is Parse,
            Some(nb) => match spec_cells_fragment(
                nb.cells,
                (ConvertOptions { embed_images: false }),
                spec_prefix(assets_dir_name),
                0,
            ) {
                Ok(step) => r is Ok && r->Ok_0.markdown@ == step.md && assets_view(r->Ok_0.assets@)
                    == step.assets,
                Err(e) => r is Err && r->Err_0 is AssetIo,
            },
        },
{
    let options = ConvertOptions::default();
    convert_notebook_to_md_with_options(doc, assets_dir_name, &options)
}

} // verus!

//! The cell and output renderer: turns each cell and each recorded output
//! into one Markdown fragment, appended in order to a growing buffer, and
//! collects the asset files that image outputs externalize to.

use vstd::prelude::*;

verus! {

use vstd::string::StringExecFns;
use crate::codec::base64_decode;
use crate::codec::base64_decoding;
use crate::codec::base64_encode_text;
use crate::codec::base64_of_text;
use crate::convert::ConvertError;
use crate::convert::ConvertOptions;
use crate::json::JsonV;
use crate::json::JsonValue;
use crate::json::entries_lookup;
use crate::json::entry_views;
use crate::json::json_obj_get;
use crate::json::text_of;
use crate::json::value_to_text;
use crate::notebook::Cell;
use crate::notebook::CellV;
use crate::notebook::Output;
use crate::notebook::OutputV;
use crate::notebook::outputs_view;

broadcast use vstd::std_specs::vec::group_vec_axioms;

/// The kind of an externalizable image payload.
#[derive(Debug, Clone, Copy, PartialEq, Eq, Structural)]
pub enum ImageKind {
    Png,
    Jpeg,
    Svg,
}

/// The alt text of the image reference: fixed literals, not notebook data.
pub open spec fn alt_text(k: ImageKind) -> Seq<char> {
    match k {
        ImageKind::Svg => "output svg"@,
        _ => "output image"@,
    }
}

/// The MIME type named in an inline data URI.
pub open spec fn mime_text(k: ImageKind) -> Seq<char> {
    match k {
        ImageKind::Png => "image/png"@,
        ImageKind::Jpeg => "image/jpeg"@,
        ImageKind::Svg => "image/svg+xml"@,
    }
}

/// The file extension of an externalized asset.
pub open spec fn ext_text(k: ImageKind) -> Seq<char> {
    match k {
        ImageKind::Png => "png"@,
        ImageKind::Jpeg => "jpg"@,
        ImageKind::Svg => "svg"@,
    }
}

/// The character of a decimal digit value.
pub open spec fn digit_char(d: nat) -> char {
    if d == 0 {
        '0'
    } else if d == 1 {
        '1'
    } else if d == 2 {
        '2'
    } else if d == 3 {
        '3'
    } else if d == 4 {
        '4'
    } else if d == 5 {
        '5'
    } else if d == 6 {
        '6'
    } else if d == 7 {
        '7'
    } else if d == 8 {
        '8'
    } else {
        '9'
    }
}

/// The decimal text of `n`, most significant digit first.
pub open spec fn dec_chars(n: nat) -> Seq<char>
    decreases n,
{
    if n < 10 {
        seq![digit_char(n)]
    } else {
        dec_chars(n / 10).push(digit_char(n % 10))
    }
}

/// The decimal text of `n`, zero-padded on the left to at least three
/// digits.
pub open spec fn pad3(n: nat) -> Seq<char> {
    if n < 10 {
        "00"@ + dec_chars(n)
    } else if n < 100 {
        "0"@ + dec_chars(n)
    } else {
        dec_chars(n)
    }
}

/// The name of the asset file with counter value `index`.
pub open spec fn asset_name(index: nat, k: ImageKind) -> Seq<char> {
    "output_"@ + pad3(index) + "."@ + ext_text(k)
}

/// What an externalized asset file holds: decoded image bytes, or literal
/// SVG markup.
pub ghost enum AssetData {
    Bytes(Seq<u8>),
    Markup(Seq<char>),
}

/// The model of an asset file.
pub ghost struct AssetSpec {
    pub index: nat,
    pub kind: ImageKind,
    pub data: AssetData,
}

/// The content of an externalized asset file.
#[derive(Debug)]
pub enum AssetContent {
    Bytes(Vec<u8>),
    Markup(String),
}

/// One asset file that a conversion asks its caller to write: the
/// conversion-wide counter value it was emitted under, the image kind, and
/// the content.
#[derive(Debug)]
pub struct AssetFile {
    pub index: usize,
    pub kind: ImageKind,
    pub content: AssetContent,
}

impl View for AssetContent {
    type V = AssetData;

    open spec fn view(&self) -> AssetData {
        match self {
            AssetContent::Bytes(b) => AssetData::Bytes(b@),
            AssetContent::Markup(s) => AssetData::Markup(s@),
        }
    }
}

impl View for AssetFile {
    type V = AssetSpec;

    open spec fn view(&self) -> AssetSpec {
        AssetSpec { index: self.index as nat, kind: self.kind, data: self.content@ }
    }
}

/// The models of a sequence of asset files.
pub open spec fn assets_view(s: Seq<AssetFile>) -> Seq<AssetSpec> {
    s.map_values(|a: AssetFile| a@)
}

/// One decimal digit as a string.
fn digit_str(d: usize) -> (r: &'static str)
    requires
        d < 10,
    ensures
        r@ == seq![digit_char(d as nat)],
{
    proof {
        reveal_strlit("0");
        reveal_strlit("1");
        reveal_strlit("2");
        reveal_strlit("3");
        reveal_strlit("4");
        reveal_strlit("5");
        reveal_strlit("6");
        reveal_strlit("7");
        reveal_strlit("8");
        reveal_strlit("9");
    }
    let r = if d == 0 {
        "0"
    } else if d == 1 {
        "1"
    } else if d == 2 {
        "2"
    } else if d == 3 {
        "3"
    } else if d == 4 {
        "4"
    } else if d == 5 {
        "5"
    } else if d == 6 {
        "6"
    } else if d == 7 {
        "7"
    } else if d == 8 {
        "8"
    } else {
        "9"
    };
    proof {
        assert(r@ =~= seq![digit_char(d as nat)]);
    }
    r
}

/// The decimal text of `n`.
fn dec_string(n: usize) -> (r: String)
    ensures
        r@ == dec_chars(n as nat),
    decreases n,
{
    if n < 10 {
        String::from_str(digit_str(n))
    } else {
        let mut s = dec_string(n / 10);
        s.append(digit_str(n % 10));
        proof {
            assert(s@ =~= dec_chars((n / 10) as nat).push(digit_char((n % 10) as nat)));
        }
        s
    }
}

/// The decimal text of `n`, zero-padded to at least three digits.
fn pad3_string(n: usize) -> (r: String)
    ensures
        r@ == pad3(n as nat),
{
    let digits = dec_string(n);
    if n < 10 {
        let mut s = String::from_str("00");
        s.append(digits.as_str());
        s
    } else if n < 100 {
        let mut s = String::from_str("0");
        s.append(digits.as_str());
        s
    } else {
        digits
    }
}

/// The extension of an asset file of kind `k`.
fn ext_str(k: ImageKind) -> (r: &'static str)
    ensures
        r@ == ext_text(k),
{
    match k {
        ImageKind::Png => "png",
        ImageKind::Jpeg => "jpg",
        ImageKind::Svg => "svg",
    }
}

impl AssetFile {
    /// The file name this asset is written under:
    /// `output_<counter>.<extension>`, the counter zero-padded to three
    /// digits.
    pub fn filename(&self) -> (r: String)
        ensures
            r@ == asset_name(self.index as nat, self.kind),
    {
        let mut s = String::from_str("output_");
        s.append(pad3_string(self.index).as_str());
        s.append(".");
        s.append(ext_str(self.kind));
        proof {
            assert(s@ =~= asset_name(self.index as nat, self.kind));
        }
        s
    }
}

/// One rendered fragment: the Markdown text it appends and the assets it
/// emits.
pub ghost struct RStep {
    pub md: Seq<char>,
    pub assets: Seq<AssetSpec>,
}

/// The text the bundle resolves under `key`, if the key is present and its
/// value has one.
pub open spec fn resolved(data: Seq<(Seq<char>, JsonV)>, key: Seq<char>) -> Option<Seq<char>> {
    match entries_lookup(data, key) {
        Some(v) => text_of(v),
        None => None,
    }
}

/// What an asset file of kind `k` holds for a given payload: decoded bytes
/// for base64 image payloads, the literal markup for SVG.
pub open spec fn spec_asset_data(k: ImageKind, payload: Seq<char>) -> Option<AssetData> {
    match k {
        ImageKind::Svg => Some(AssetData::Markup(payload)),
        _ => match base64_decoding(payload) {
            Some(bytes) => Some(AssetData::Bytes(bytes)),
            None => None,
        },
    }
}

/// The fragment of one image payload: an inline data URI when images are
/// embedded, else an image reference plus one emitted asset under counter
/// value `c`. Fails only when a base64 payload does not decode.
pub open spec fn spec_image_fragment(
    k: ImageKind,
    payload: Seq<char>,
    opts: ConvertOptions,
    prefix: Seq<char>,
    c: nat,
) -> Result<RStep, ()> {
    if opts.embed_images {
        let b64 = if k is Svg {
            base64_of_text(payload)
        } else {
            payload
        };
        Ok(
            RStep {
                md: "!["@ + alt_text(k) + "](data:"@ + mime_text(k) + ";base64,"@ + b64 + ")\n\n"@,
                assets: Seq::empty(),
            },
        )
    } else {
        match spec_asset_data(k, payload) {
            Some(d) => Ok(
                RStep {
                    md: "!["@ + alt_text(k) + "]("@ + prefix + asset_name(c, k) + ")\n\n"@,
                    assets: seq![(AssetSpec { index: c, kind: k, data: d })],
                },
            ),
            None => Err(()),
        }
    }
}

/// The fragment of a rich-display bundle: the first key of the fixed
/// priority order that resolves to text wins; when none does, the output
/// produces no fragment.
pub open spec fn spec_data_fragment(
    data: Seq<(Seq<char>, JsonV)>,
    opts: ConvertOptions,
    prefix: Seq<char>,
    c: nat,
) -> Result<RStep, ()> {
    if resolved(data, "image/png"@) is Some {
        spec_image_fragment(ImageKind::Png, resolved(data, "image/png"@)->0, opts, prefix, c)
    } else if resolved(data, "image/jpeg"@) is Some {
        spec_image_fragment(ImageKind::Jpeg, resolved(data, "image/jpeg"@)->0, opts, prefix, c)
    } else if resolved(data, "image/svg+xml"@) is Some {
        spec_image_fragment(ImageKind::Svg, resolved(data, "image/svg+xml"@)->0, opts, prefix, c)
    } else if resolved(data, "text/markdown"@) is Some {
        Ok(RStep { md: resolved(data, "text/markdown"@)->0 + "\n\n"@, assets: Seq::empty() })
    } else if resolved(data, "text/plain"@) is Some {
        Ok(
            RStep {
                md: "```\n"@ + resolved(data, "text/plain"@)->0 + "\n```\n\n"@,
                assets: Seq::empty(),
            },
        )
    } else if resolved(data, "text/html"@) is Some {
        Ok(
            RStep {
                md: "```html\n"@ + resolved(data, "text/html"@)->0 + "\n```\n\n"@,
                assets: Seq::empty(),
            },
        )
    } else {
        Ok(RStep { md: Seq::empty(), assets: Seq::empty() })
    }
}

/// The fragment of one output, starting from counter value `c`.
pub open spec fn spec_output_fragment(
    o: OutputV,
    opts: ConvertOptions,
    prefix: Seq<char>,
    c: nat,
) -> Result<RStep, ()> {
    match o {
        OutputV::Stream { name, text } => Ok(
            RStep { md: "```\n"@ + text + "\n```\n\n"@, assets: Seq::empty() },
        ),
        OutputV::Error { ename, evalue, traceback } => Ok(
            RStep {
                md: "```error\n"@ + ename + ": "@ + evalue + "\n"@ + traceback + "\n```\n\n"@,
                assets: Seq::empty(),
            },
        ),
        OutputV::DisplayData { data } => spec_data_fragment(data, opts, prefix, c),
        OutputV::ExecuteResult { data, execution_count } => spec_data_fragment(
            data,
            opts,
            prefix,
            c,
        ),
    }
}

/// The combined fragment of a sequence of outputs, in order, threading the
/// counter; the first failure aborts.
pub open spec fn spec_outputs_fragment(
    outs: Seq<OutputV>,
    opts: ConvertOptions,
    prefix: Seq<char>,
    c: nat,
) -> Result<RStep, ()>
    decreases outs.len(),
{
    if outs.len() == 0 {
        Ok(RStep { md: Seq::empty(), assets: Seq::empty() })
    } else {
        match spec_outputs_fragment(outs.drop_last(), opts, prefix, c) {
            Ok(pre) => match spec_output_fragment(outs.last(), opts, prefix, c + pre.assets.len()) {
                Ok(step) => Ok(RStep { md: pre.md + step.md, assets: pre.assets + step.assets }),
                Err(e) => Err(e),
            },
            Err(e) => Err(e),
        }
    }
}

/// The fragment of one cell: markdown and raw sources verbatim plus a blank
/// line; code sources in a `python`-tagged fence, followed by the fragments
/// of their outputs.
pub open spec fn spec_cell_fragment(
    cell: CellV,
    opts: ConvertOptions,
    prefix: Seq<char>,
    c: nat,
) -> Result<RStep, ()> {
    match cell {
        CellV::Markdown { source } => Ok(RStep { md: source + "\n\n"@, assets: Seq::empty() }),
        CellV::Raw { source } => Ok(RStep { md: source + "\n\n"@, assets: Seq::empty() }),
        CellV::Code { source, outputs, execution_count } => match spec_outputs_fragment(
            outputs,
            opts,
            prefix,
            c,
        ) {
            Ok(outs) => Ok(
                RStep {
                    md: "```python\n"@ + source + "\n```\n\n"@ + outs.md,
                    assets: outs.assets,
                },
            ),
            Err(e) => Err(e),
        },
    }
}

/// The combined fragment of a sequence of cells, in order, threading the
/// counter; the first failure aborts.
pub open spec fn spec_cells_fragment(
    cells: Seq<CellV>,
    opts: ConvertOptions,
    prefix: Seq<char>,
    c: nat,
) -> Result<RStep, ()>
    decreases cells.len(),
{
    if cells.len() == 0 {
        Ok(RStep { md: Seq::empty(), assets: Seq::empty() })
    } else {
        match spec_cells_fragment(cells.drop_last(), opts, prefix, c) {
            Ok(pre) => match spec_cell_fragment(cells.last(), opts, prefix, c + pre.assets.len()) {
                Ok(step) => Ok(RStep { md: pre.md + step.md, assets: pre.assets + step.assets }),
                Err(e) => Err(e),
            },
            Err(e) => Err(e),
        }
    }
}

pub proof fn lemma_spec_outputs_fragment_err(
    outs: Seq<OutputV>,
    opts: ConvertOptions,
    prefix: Seq<char>,
    c: nat,
    i: int,
    n: int,
)
    requires
        0 <= i <= n <= outs.len(),
        spec_outputs_fragment(outs.subrange(0, i), opts, prefix, c) is Err,
    ensures
        spec_outputs_fragment(outs.subrange(0, n), opts, prefix, c) is Err,
    decreases n - i,
{
    if n > i {
        lemma_spec_outputs_fragment_err(outs, opts, prefix, c, i, n - 1);
        assert(outs.subrange(0, n).drop_last() =~= outs.subrange(0, n - 1));
    }
}

pub proof fn lemma_spec_cells_fragment_err(
    cells: Seq<CellV>,
    opts: ConvertOptions,
    prefix: Seq<char>,
    c: nat,
    i: int,
    n: int,
)
    requires
        0 <= i <= n <= cells.len(),
        spec_cells_fragment(cells.subrange(0, i), opts, prefix, c) is Err,
    ensures
        spec_cells_fragment(cells.subrange(0, n), opts, prefix, c) is Err,
    decreases n - i,
{
    if n > i {
        lemma_spec_cells_fragment_err(cells, opts, prefix, c, i, n - 1);
        assert(cells.subrange(0, n).drop_last() =~= cells.subrange(0, n - 1));
    }
}

/// The source text of a cell, whatever its variant.
pub open spec fn cell_source(c: CellV) -> Seq<char> {
    match c {
        CellV::Markdown { source } => source,
        CellV::Raw { source } => source,
        CellV::Code { source, outputs, execution_count } => source,
    }
}

/// The cells' normalized sources in order, each followed by a blank line.
pub open spec fn joined_sources(cells: Seq<CellV>) -> Seq<char>
    decreases cells.len(),
{
    if cells.len() == 0 {
        Seq::empty()
    } else {
        joined_sources(cells.drop_last()) + (cell_source(cells.last()) + "\n\n"@)
    }
}

/// Law: a notebook of only markdown and raw cells renders, for any options
/// and starting counter, to the concatenation of the cells' normalized
/// sources joined by blank lines, in original order, with no assets and no
/// failure.
pub proof fn lemma_text_cells_render(
    cells: Seq<CellV>,
    opts: ConvertOptions,
    prefix: Seq<char>,
    c: nat,
)
    requires
        forall|i: int| 0 <= i < cells.len() ==> cells[i] is Markdown || cells[i] is Raw,
    ensures
        spec_cells_fragment(cells, opts, prefix, c) == Ok::<RStep, ()>(
            (RStep { md: joined_sources(cells), assets: Seq::<AssetSpec>::empty() }),
        ),
    decreases cells.len(),
{
    if cells.len() > 0 {
        assert(forall|i: int|
            0 <= i < cells.drop_last().len() ==> cells.drop_last()[i] == cells[i]);
        lemma_text_cells_render(cells.drop_last(), opts, prefix, c);
        assert(cells.last() is Markdown || cells.last() is Raw);
        assert(joined_sources(cells.drop_last()) + (cell_source(cells.last()) + "\n\n"@)
            =~= joined_sources(cells.drop_last()) + cell_source(cells.last()) + "\n\n"@);
        assert(Seq::<AssetSpec>::empty() + Seq::<AssetSpec>::empty()
            =~= Seq::<AssetSpec>::empty());
    }
}

/// Law, for one output: with images embedded, rendering always succeeds,
/// emits no asset, and its Markdown does not depend on the counter.
pub proof fn lemma_embed_output_pure(
    o: OutputV,
    opts: ConvertOptions,
    prefix: Seq<char>,
    c1: nat,
    c2: nat,
)
    requires
        opts.embed_images,
    ensures
        spec_output_fragment(o, opts, prefix, c1) is Ok,
        spec_output_fragment(o, opts, prefix, c1)->Ok_0.assets == Seq::<AssetSpec>::empty(),
        spec_output_fragment(o, opts, prefix, c1)->Ok_0.md == spec_output_fragment(
            o,
            opts,
            prefix,
            c2,
        )->Ok_0.md,
{
    assert(Seq::<AssetSpec>::empty() =~= Seq::<AssetSpec>::empty());
}

/// Law, for a sequence of outputs: with images embedded, rendering always
/// succeeds, emits no assets, and its Markdown does not depend on the
/// counter.
pub proof fn lemma_embed_outputs_pure(
    outs: Seq<OutputV>,
    opts: ConvertOptions,
    prefix: Seq<char>,
    c1: nat,
    c2: nat,
)
    requires
        opts.embed_images,
    ensures
        spec_outputs_fragment(outs, opts, prefix, c1) is Ok,
        spec_outputs_fragment(outs, opts, prefix, c1)->Ok_0.assets == Seq::<AssetSpec>::empty(),
        spec_outputs_fragment(outs, opts, prefix, c1)->Ok_0.md == spec_outputs_fragment(
            outs,
            opts,
            prefix,
            c2,
        )->Ok_0.md,
    decreases outs.len(),
{
    if outs.len() > 0 {
        lemma_embed_outputs_pure(outs.drop_last(), opts, prefix, c1, c2);
        lemma_embed_outputs_pure(outs.drop_last(), opts, prefix, c2, c1);
        let pre1 = spec_outputs_fragment(outs.drop_last(), opts, prefix, c1)->Ok_0;
        let pre2 = spec_outputs_fragment(outs.drop_last(), opts, prefix, c2)->Ok_0;
        assert(pre1.assets.len() == 0);
        assert(pre2.assets.len() == 0);
        assert(c1 + pre1.assets.len() == c1);
        assert(c2 + pre2.assets.len() == c2);
        lemma_embed_output_pure(outs.last(), opts, prefix, c1, c2);
        lemma_embed_output_pure(outs.last(), opts, prefix, c2, c1);
        assert(Seq::<AssetSpec>::empty() + Seq::<AssetSpec>::empty()
            =~= Seq::<AssetSpec>::empty());
    }
}

/// Law, for one cell: with images embedded, rendering always succeeds,
/// emits no asset, and its Markdown does not depend on the counter.
pub proof fn lemma_embed_cell_pure(
    cell: CellV,
    opts: ConvertOptions,
    prefix: Seq<char>,
    c1: nat,
    c2: nat,
)
    requires
        opts.embed_images,
    ensures
        spec_cell_fragment(cell, opts, prefix, c1) is Ok,
        spec_cell_fragment(cell, opts, prefix, c1)->Ok_0.assets == Seq::<AssetSpec>::empty(),
        spec_cell_fragment(cell, opts, prefix, c1)->Ok_0.md == spec_cell_fragment(
            cell,
            opts,
            prefix,
            c2,
        )->Ok_0.md,
{
    match cell {
        CellV::Code { source, outputs, execution_count } => {
            lemma_embed_outputs_pure(outputs, opts, prefix, c1, c2);
            lemma_embed_outputs_pure(outputs, opts, prefix, c2, c1);
        }
        _ => {}
    }
}

/// Law: with images embedded a conversion has no side effects — rendering
/// always succeeds, asks for no asset files, and the resulting Markdown
/// does not depend on the asset counter, so converting the same notebook
/// twice yields byte-identical output.
pub proof fn lemma_embed_images_no_side_effects(
    cells: Seq<CellV>,
    opts: ConvertOptions,
    prefix: Seq<char>,
    c1: nat,
    c2: nat,
)
    requires
        opts.embed_images,
    ensures
        spec_cells_fragment(cells, opts, prefix, c1) is Ok,
        spec_cells_fragment(cells, opts, prefix, c1)->Ok_0.assets == Seq::<AssetSpec>::empty(),
        spec_cells_fragment(cells, opts, prefix, c1)->Ok_0.md == spec_cells_fragment(
            cells,
            opts,
            prefix,
            c2,
        )->Ok_0.md,
    decreases cells.len(),
{
    if cells.len() > 0 {
        lemma_embed_images_no_side_effects(cells.drop_last(), opts, prefix, c1, c2);
        lemma_embed_images_no_side_effects(cells.drop_last(), opts, prefix, c2, c1);
        let pre1 = spec_cells_fragment(cells.drop_last(), opts, prefix, c1)->Ok_0;
        let pre2 = spec_cells_fragment(cells.drop_last(), opts, prefix, c2)->Ok_0;
        assert(pre1.assets.len() == 0);
        assert(pre2.assets.len() == 0);
        assert(c1 + pre1.assets.len() == c1);
        assert(c2 + pre2.assets.len() == c2);
        lemma_embed_cell_pure(cells.last(), opts, prefix, c1, c2);
        lemma_embed_cell_pure(cells.last(), opts, prefix, c2, c1);
        assert(Seq::<AssetSpec>::empty() + Seq::<AssetSpec>::empty()
            =~= Seq::<AssetSpec>::empty());
    }
}

/// Law: in a rich-display bundle where no image key resolves and
/// `text/markdown` does, the fragment is the markdown text verbatim with a
/// blank line — any `text/plain` alternative is ignored — and no asset is
/// emitted.
pub proof fn lemma_markdown_priority(
    data: Seq<(Seq<char>, JsonV)>,
    opts: ConvertOptions,
    prefix: Seq<char>,
    c: nat,
)
    requires
        resolved(data, "image/png"@) is None,
        resolved(data, "image/jpeg"@) is None,
        resolved(data, "image/svg+xml"@) is None,
        resolved(data, "text/markdown"@) is Some,
    ensures
        spec_data_fragment(data, opts, prefix, c) == Ok::<RStep, ()>(
            (RStep {
                md: resolved(data, "text/markdown"@)->0 + "\n\n"@,
                assets: Seq::<AssetSpec>::empty(),
            }),
        ),
{
}

/// Law, for one output: every asset an output emits from counter value `c`
/// is indexed consecutively from `c`.
pub proof fn lemma_output_assets_indexed(
    o: OutputV,
    opts: ConvertOptions,
    prefix: Seq<char>,
    c: nat,
)
    requires
        spec_output_fragment(o, opts, prefix, c) is Ok,
    ensures
        forall|j: int|
            0 <= j < spec_output_fragment(o, opts, prefix, c)->Ok_0.assets.len()
                ==> #[trigger] spec_output_fragment(o, opts, prefix, c)->Ok_0.assets[j].index == c
                + j,
{
}

/// Law, for a sequence of outputs: the emitted assets are indexed
/// consecutively from `c`, in emission order.
pub proof fn lemma_outputs_assets_indexed(
    outs: Seq<OutputV>,
    opts: ConvertOptions,
    prefix: Seq<char>,
    c: nat,
)
    requires
        spec_outputs_fragment(outs, opts, prefix, c) is Ok,
    ensures
        forall|j: int|
            0 <= j < spec_outputs_fragment(outs, opts, prefix, c)->Ok_0.assets.len()
                ==> #[trigger] spec_outputs_fragment(outs, opts, prefix, c)->Ok_0.assets[j].index
                == c + j,
    decreases outs.len(),
{
    if outs.len() > 0 {
        let pre = spec_outputs_fragment(outs.drop_last(), opts, prefix, c)->Ok_0;
        lemma_outputs_assets_indexed(outs.drop_last(), opts, prefix, c);
        lemma_output_assets_indexed(outs.last(), opts, prefix, c + pre.assets.len());
    }
}

/// Law, for one cell: the emitted assets are indexed consecutively from
/// `c`, in emission order.
pub proof fn lemma_cell_assets_indexed(
    cell: CellV,
    opts: ConvertOptions,
    prefix: Seq<char>,
    c: nat,
)
    requires
        spec_cell_fragment(cell, opts, prefix, c) is Ok,
    ensures
        forall|j: int|
            0 <= j < spec_cell_fragment(cell, opts, prefix, c)->Ok_0.assets.len()
                ==> #[trigger] spec_cell_fragment(cell, opts, prefix, c)->Ok_0.assets[j].index == c
                + j,
{
    match cell {
        CellV::Code { source, outputs, execution_count } => {
            lemma_outputs_assets_indexed(outputs, opts, prefix, c);
        }
        _ => {}
    }
}

/// Law: the asset counter is monotonic across a whole conversion — the
/// assets a successful rendering emits from counter value `c` are indexed
/// `c`, `c + 1`, … in emission order, with no gaps and no resets between
/// cells.
pub proof fn lemma_counter_monotonic(
    cells: Seq<CellV>,
    opts: ConvertOptions,
    prefix: Seq<char>,
    c: nat,
)
    requires
        spec_cells_fragment(cells, opts, prefix, c) is Ok,
    ensures
        forall|j: int|
            0 <= j < spec_cells_fragment(cells, opts, prefix, c)->Ok_0.assets.len()
                ==> #[trigger] spec_cells_fragment(cells, opts, prefix, c)->Ok_0.assets[j].index
                == c + j,
    decreases cells.len(),
{
    if cells.len() > 0 {
        let pre = spec_cells_fragment(cells.drop_last(), opts, prefix, c)->Ok_0;
        lemma_counter_monotonic(cells.drop_last(), opts, prefix, c);
        lemma_cell_assets_indexed(cells.last(), opts, prefix, c + pre.assets.len());
    }
}

/// Resolves the value of `key` in a MIME bundle to text, if present.
pub fn get_resolved(data: &Vec<(String, JsonValue)>, key: &str) -> (r: Option<String>)
    ensures
        ({
            let rs = resolved(entry_views(*data, data@.len() as int), key@);
            &&& r is Some <==> rs is Some
            &&& r is Some ==> r->0@ == rs->0
        }),
{
    match json_obj_get(data, key) {
        Some(v) => value_to_text(v),
        None => None,
    }
}

/// Renders one image payload: appends its Markdown reference and, when
/// externalizing, pushes the asset file it decodes to.
fn process_image(
    md: &mut String,
    kind: ImageKind,
    payload: String,
    prefix: &str,
    assets: &mut Vec<AssetFile>,
    options: &ConvertOptions,
) -> (r: Result<(), ConvertError>)
    ensures
        match spec_image_fragment(kind, payload@, *options, prefix@, old(assets)@.len() as nat) {
            Ok(step) => r is Ok && final(md)@ == old(md)@ + step.md && assets_view(final(assets)@)
                == assets_view(old(assets)@) + step.assets,
            Err(e) => r is Err && r->Err_0 is AssetIo && final(md)@ == old(md)@ && final(assets)@
                == old(assets)@,
        },
{
    if options.embed_images {
        let b64 = match kind {
            ImageKind::Svg => base64_encode_text(payload.as_str()),
            _ => payload,
        };
        md.append("![");
        md.append(match kind {
            ImageKind::Svg => "output svg",
            _ => "output image",
        });
        md.append("](data:");
        md.append(match kind {
            ImageKind::Png => "image/png",
            ImageKind::Jpeg => "image/jpeg",
            ImageKind::Svg => "image/svg+xml",
        });
        md.append(";base64,");
        md.append(b64.as_str());
        md.append(")\n\n");
        proof {
            let step = spec_image_fragment(
                kind,
                payload@,
                *options,
                prefix@,
                old(assets)@.len() as nat,
            )->Ok_0;
            assert(md@ =~= old(md)@ + step.md);
        }
        Ok(())
    } else {
        let content = match kind {
            ImageKind::Svg => AssetContent::Markup(payload),
            _ => match base64_decode(payload.as_str()) {
                Some(bytes) => AssetContent::Bytes(bytes),
                None => {
                    return Err(
                        ConvertError::AssetIo(
                            String::from_str("an image payload is not valid base64"),
                        ),
                    );
                },
            },
        };
        let index = assets.len();
        let file = AssetFile { index, kind, content };
        let fname = file.filename();
        md.append("![");
        md.append(match kind {
            ImageKind::Svg => "output svg",
            _ => "output image",
        });
        md.append("](");
        md.append(prefix);
        md.append(fname.as_str());
        md.append(")\n\n");
        let ghost fspec = file@;
        assets.push(file);
        proof {
            let step = spec_image_fragment(
                kind,
                payload@,
                *options,
                prefix@,
                old(assets)@.len() as nat,
            )->Ok_0;
            assert(md@ =~= old(md)@ + step.md);
            assert(assets_view(assets@) =~= assets_view(old(assets)@) + seq![fspec]);
        }
        Ok(())
    }
}

/// Renders a rich-display bundle: the first MIME key of the priority order
/// that resolves wins; an unresolvable bundle appends nothing.
fn process_data(
    md: &mut String,
    data: &Vec<(String, JsonValue)>,
    prefix: &str,
    assets: &mut Vec<AssetFile>,
    options: &ConvertOptions,
) -> (r: Result<(), ConvertError>)
    ensures
        match spec_data_fragment(
            entry_views(*data, data@.len() as int),
            *options,
            prefix@,
            old(assets)@.len() as nat,
        ) {
            Ok(step) => r is Ok && final(md)@ == old(md)@ + step.md && assets_view(final(assets)@)
                == assets_view(old(assets)@) + step.assets,
            Err(e) => r is Err && r->Err_0 is AssetIo && final(md)@ == old(md)@ && final(assets)@
                == old(assets)@,
        },
{
    if let Some(payload) = get_resolved(data, "image/png") {
        process_image(md, ImageKind::Png, payload, prefix, assets, options)
    } else if let Some(payload) = get_resolved(data, "image/jpeg") {
        process_image(md, ImageKind::Jpeg, payload, prefix, assets, options)
    } else if let Some(payload) = get_resolved(data, "image/svg+xml") {
        process_image(md, ImageKind::Svg, payload, prefix, assets, options)
    } else if let Some(text) = get_resolved(data, "text/markdown") {
        md.append(text.as_str());
        md.append("\n\n");
        proof {
            assert(md@ =~= old(md)@ + (text@ + "\n\n"@));
        }
        Ok(())
    } else if let Some(text) = get_resolved(data, "text/plain") {
        md.append("```\n");
        md.append(text.as_str());
        md.append("\n```\n\n");
        proof {
            assert(md@ =~= old(md)@ + ("```\n"@ + text@ + "\n```\n\n"@));
        }
        Ok(())
    } else if let Some(text) = get_resolved(data, "text/html") {
        md.append("```html\n");
        md.append(text.as_str());
        md.append("\n```\n\n");
        proof {
            assert(md@ =~= old(md)@ + ("```html\n"@ + text@ + "\n```\n\n"@));
        }
        Ok(())
    } else {
        proof {
            assert(md@ =~= old(md)@ + Seq::<char>::empty());
        }
        Ok(())
    }
}

/// Renders one output, appending its fragment and emitting its assets.
pub fn process_output(
    md: &mut String,
    output: &Output,
    prefix: &str,
    assets: &mut Vec<AssetFile>,
    options: &ConvertOptions,
) -> (r: Result<(), ConvertError>)
    ensures
        match spec_output_fragment(output@, *options, prefix@, old(assets)@.len() as nat) {
            Ok(step) => r is Ok && final(md)@ == old(md)@ + step.md && assets_view(final(assets)@)
                == assets_view(old(assets)@) + step.assets,
            Err(e) => r is Err && r->Err_0 is AssetIo && final(md)@ == old(md)@ && final(assets)@
                == old(assets)@,
        },
{
    match output {
        Output::Stream { name, text } => {
            let t = text.as_string();
            md.append("```\n");
            md.append(t.as_str());
            md.append("\n```\n\n");
            proof {
                assert(md@ =~= old(md)@ + ("```\n"@ + t@ + "\n```\n\n"@));
            }
            Ok(())
        }
        Output::Error { ename, evalue, traceback } => {
            let tb = traceback.as_string();
            md.append("```error\n");
            md.append(ename.as_str());
            md.append(": ");
            md.append(evalue.as_str());
            md.append("\n");
            md.append(tb.as_str());
            md.append("\n```\n\n");
            proof {
                assert(md@ =~= old(md)@ + ("```error\n"@ + ename@ + ": "@ + evalue@ + "\n"@ + tb@
                    + "\n```\n\n"@));
            }
            Ok(())
        }
        Output::DisplayData { data, metadata } => process_data(md, data, prefix, assets, options),
        Output::ExecuteResult { data, metadata, execution_count } => process_data(
            md,
            data,
            prefix,
            assets,
            options,
        ),
    }
}

/// Renders one cell: its source fragment, then each of its outputs in
/// order.
#[verifier::rlimit(60)]
pub fn process_cell(
    md: &mut String,
    cell: &Cell,
    prefix: &str,
    assets: &mut Vec<AssetFile>,
    options: &ConvertOptions,
) -> (r: Result<(), ConvertError>)
    ensures
        match spec_cell_fragment(cell@, *options, prefix@, old(assets)@.len() as nat) {
            Ok(step) => r is Ok && final(md)@ == old(md)@ + step.md && assets_view(final(assets)@)
                == assets_view(old(assets)@) + step.assets,
            Err(e) => r is Err && r->Err_0 is AssetIo,
        },
{
    match cell {
        Cell::Markdown { source, metadata } => {
            let t = source.as_string();
            md.append(t.as_str());
            md.append("\n\n");
            proof {
                assert(md@ =~= old(md)@ + (t@ + "\n\n"@));
            }
            Ok(())
        }
        Cell::Raw { source, metadata } => {
            let t = source.as_string();
            md.append(t.as_str());
            md.append("\n\n");
            proof {
                assert(md@ =~= old(md)@ + (t@ + "\n\n"@));
            }
            Ok(())
        }
        Cell::Code { source, outputs, execution_count, metadata } => {
            let t = source.as_string();
            md.append("```python\n");
            md.append(t.as_str());
            md.append("\n```\n\n");
            let ghost c0 = old(assets)@.len() as nat;
            let ghost md_base = md@;
            let ghost av0 = assets_view(assets@);
            let ghost outsv = outputs_view(outputs@);
            proof {
                assert(outsv.subrange(0, 0) =~= Seq::<OutputV>::empty());
            }
            let mut i: usize = 0;
            while i < outputs.len()
                invariant
                    cell@ == (CellV::Code {
                        source: t@,
                        outputs: outsv,
                        execution_count: *execution_count,
                    }),
                    outsv == outputs_view(outputs@),
                    outsv.len() == outputs@.len(),
                    i <= outputs@.len(),
                    c0 == old(assets)@.len() as nat,
                    av0 == assets_view(old(assets)@),
                    av0.len() == c0,
                    md_base == old(md)@ + ("```python\n"@ + t@ + "\n```\n\n"@),
                    ({
                        match spec_outputs_fragment(
                            outsv.subrange(0, i as int),
                            *options,
                            prefix@,
                            c0,
                        ) {
                            Ok(pre) => md@ == md_base + pre.md && assets_view(assets@) == av0
                                + pre.assets,
                            Err(e) => false,
                        }
                    }),
                decreases outputs@.len() - i,
            {
                let ghost pre = spec_outputs_fragment(
                    outsv.subrange(0, i as int),
                    *options,
                    prefix@,
                    c0,
                )->Ok_0;
                proof {
                    assert(outsv[i as int] == outputs@[i as int]@);
                    assert(assets_view(assets@).len() == assets@.len());
                    assert(assets@.len() == av0.len() + pre.assets.len());
                }
                match process_output(md, &outputs[i], prefix, assets, options) {
                    Ok(u) => {
                        proof {
                            assert(outsv.subrange(0, i as int + 1).drop_last() =~= outsv.subrange(
                                0,
                                i as int,
                            ));
                            assert(outsv.subrange(0, i as int + 1).last() == outsv[i as int]);
                            let step = spec_output_fragment(
                                outsv[i as int],
                                *options,
                                prefix@,
                                c0 + pre.assets.len(),
                            )->Ok_0;
                            assert(md@ =~= md_base + (pre.md + step.md));
                            assert(assets_view(assets@) =~= av0 + (pre.assets + step.assets));
                        }
                    }
                    Err(e) => {
                        proof {
                            assert(outsv.subrange(0, i as int + 1).drop_last() =~= outsv.subrange(
                                0,
                                i as int,
                            ));
                            assert(outsv.subrange(0, i as int + 1).last() == outsv[i as int]);
                            assert(spec_outputs_fragment(
                                outsv.subrange(0, i as int + 1),
                                *options,
                                prefix@,
                                c0,
                            ) is Err);
                            lemma_spec_outputs_fragment_err(
                                outsv,
                                *options,
                                prefix@,
                                c0,
                                i as int + 1,
                                outsv.len() as int,
                            );
                            assert(outsv.subrange(0, outsv.len() as int) =~= outsv);
                            assert(spec_cell_fragment(cell@, *options, prefix@, c0) is Err);
                        }
                        return Err(e);
                    }
                }
                i = i + 1;
            }
            proof {
                assert(outsv.subrange(0, outsv.len() as int) =~= outsv);
                let outs = spec_outputs_fragment(outsv, *options, prefix@, c0)->Ok_0;
                assert(md@ =~= old(md)@ + ("```python\n"@ + t@ + "\n```\n\n"@ + outs.md));
            }
            Ok(())
        }
    }
}

} // verus!

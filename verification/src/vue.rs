use crate::text::{
    ascii_bytes, ascii_str_bytes, count_line_feeds, find_between, first_match, lemma_ascii_cut_points,
    lemma_first_match, line_feeds, lower_byte, lowered, str_slice, to_lower,
};
use crate::walker::SourceKind;
use vstd::prelude::*;
use vstd::string::*;
use vstd::utf8::*;

verus! {

/// A script region of a component file.
#[derive(Debug, Clone)]
pub struct VueScriptBlock {
    /// The text between the opening tag and the closing tag.
    pub content: String,
    /// The number of line feeds before the content.
    pub line_offset: usize,
    pub kind: SourceKind,
}

/// A script region as a mathematical value: the bytes of its content, the
/// number of line feeds before it, and its grammar.
pub ghost struct ScriptRegion {
    pub content: Seq<u8>,
    pub line_offset: int,
    pub kind: SourceKind,
}

impl View for VueScriptBlock {
    type V = ScriptRegion;

    open spec fn view(&self) -> ScriptRegion {
        ScriptRegion {
            content: encode_utf8(self.content@),
            line_offset: self.line_offset as int,
            kind: self.kind,
        }
    }
}

/// The view of a script region, as a function.
pub open spec fn block_view() -> spec_fn(VueScriptBlock) -> ScriptRegion {
    |b: VueScriptBlock| b@
}

/// The views of a list of script regions.
pub open spec fn block_views(s: Seq<VueScriptBlock>) -> Seq<ScriptRegion> {
    s.map_values(block_view())
}

/// The token that opens a script region, in lower case.
pub open spec fn open_tag() -> Seq<u8> {
    ascii_bytes("<script"@)
}

/// The token that ends a tag.
pub open spec fn tag_end() -> Seq<u8> {
    ascii_bytes(">"@)
}

/// The token that closes a script region, in lower case.
pub open spec fn close_tag() -> Seq<u8> {
    ascii_bytes("</script>"@)
}

/// Where a script region lies in a text: the opening tag starts at
/// `tag_start`, its `>` stands at `tag_end`, and the closing tag starts at
/// `close_start`.
pub ghost struct RegionBounds {
    pub tag_start: int,
    pub tag_end: int,
    pub close_start: int,
}

/// The first script region at or after `from` in a text whose lower-case
/// form is `lower`: the first opening tag, the first `>` behind its name, and
/// the first closing tag behind that.
pub open spec fn locate(lower: Seq<u8>, from: int) -> Option<RegionBounds> {
    let len = lower.len() as int;
    match first_match(lower, from, len, open_tag()) {
        Some(tag_start) => match first_match(lower, tag_start + open_tag().len(), len, tag_end()) {
            Some(tag_end) => match first_match(lower, tag_end + 1, len, close_tag()) {
                Some(close_start) => Some(RegionBounds { tag_start, tag_end, close_start }),
                None => None,
            },
            None => None,
        },
        None => None,
    }
}

/// Whether `pat` stands somewhere in `hay[from..to]`.
pub open spec fn holds(hay: Seq<u8>, from: int, to: int, pat: Seq<u8>) -> bool {
    first_match(hay, from, to, pat) is Some
}

/// Whether the attributes of a tag, `lower[from..to]`, refer to another file.
pub open spec fn refers_elsewhere(lower: Seq<u8>, from: int, to: int) -> bool {
    holds(lower, from, to, ascii_bytes("src="@))
}

/// The grammar that the attributes of a tag, `lower[from..to]`, ask for.
pub open spec fn tag_kind(lower: Seq<u8>, from: int, to: int) -> SourceKind {
    if holds(lower, from, to, ascii_bytes("lang=\"tsx\""@)) || holds(
        lower,
        from,
        to,
        ascii_bytes("lang='tsx'"@),
    ) || holds(lower, from, to, ascii_bytes("lang=tsx"@)) {
        SourceKind::Tsx
    } else {
        SourceKind::Ts
    }
}

/// The region at `bounds` of the text `text`.
pub open spec fn region_at(text: Seq<u8>, bounds: RegionBounds) -> ScriptRegion {
    ScriptRegion {
        content: text.subrange(bounds.tag_end + 1, bounds.close_start),
        line_offset: line_feeds(text.subrange(0, bounds.tag_end + 1)) as int,
        kind: tag_kind(lowered(text), bounds.tag_start + open_tag().len(), bounds.tag_end),
    }
}

/// The lengths of the three tokens.
pub proof fn lemma_tokens()
    ensures
        open_tag().len() == 7,
        tag_end().len() == 1,
        close_tag().len() == 9,
        tag_end()[0] == 0x3e,
        close_tag()[0] == 0x3c,
{
    reveal_strlit("<script");
    reveal_strlit(">");
    reveal_strlit("</script>");
}

/// A region that `locate` finds lies at or after `from`, its parts in order,
/// and its closing tag inside the text.
pub proof fn lemma_locate(lower: Seq<u8>, from: int)
    ensures
        locate(lower, from) matches Some(b) ==> {
            &&& from <= b.tag_start
            &&& b.tag_start + 7 <= b.tag_end
            &&& b.tag_end < b.close_start
            &&& b.close_start + 9 <= lower.len()
            &&& lower[b.tag_end] == 0x3e
            &&& lower[b.close_start] == 0x3c
        },
{
    lemma_tokens();
    let len = lower.len() as int;
    lemma_first_match(lower, from, len, open_tag());
    match first_match(lower, from, len, open_tag()) {
        Some(tag_start) => {
            lemma_first_match(lower, tag_start + 7, len, tag_end());
            match first_match(lower, tag_start + 7, len, tag_end()) {
                Some(tag_end_at) => {
                    lemma_first_match(lower, tag_end_at + 1, len, close_tag());
                    assert(lower.subrange(tag_end_at, tag_end_at + 1)[0] == lower[tag_end_at]);
                    match first_match(lower, tag_end_at + 1, len, close_tag()) {
                        Some(close_start) => {
                            assert(lower.subrange(close_start, close_start + 9)[0]
                                == lower[close_start]);
                        },
                        None => {},
                    }
                },
                None => {},
            }
        },
        None => {},
    }
}

/// The script regions of `text` from `from` on, in the order of the text.
/// A region whose tag refers to another file is left out. The search goes on
/// behind each closing tag and ends where no further region is complete.
pub open spec fn script_regions(text: Seq<u8>, from: int) -> Seq<ScriptRegion>
    decreases text.len() - from,
{
    match locate(lowered(text), from) {
        // Behind a closing tag the search is further on than before.
        Some(bounds) => if from < bounds.close_start + close_tag().len() <= text.len() {
            let rest = script_regions(text, bounds.close_start + close_tag().len());
            if refers_elsewhere(lowered(text), bounds.tag_start + open_tag().len(), bounds.tag_end) {
                rest
            } else {
                seq![region_at(text, bounds)] + rest
            }
        } else {
            Seq::empty()
        },
        None => Seq::empty(),
    }
}

/// One step of the search: the region that is found next, where its tag
/// does not refer to another file, and behind it what the search finds from
/// the end of its closing tag on.
pub proof fn lemma_script_regions_step(text: Seq<u8>, from: int)
    ensures
        script_regions(text, from) == match locate(lowered(text), from) {
            Some(bounds) => {
                let rest = script_regions(text, bounds.close_start + 9);
                if refers_elsewhere(lowered(text), bounds.tag_start + 7, bounds.tag_end) {
                    rest
                } else {
                    seq![region_at(text, bounds)] + rest
                }
            },
            None => Seq::empty(),
        },
{
    lemma_tokens();
    lemma_locate(lowered(text), from);
}

/// The grammar that the attributes of a tag ask for.
fn kind_of_tag(lower: &[u8], from: usize, to: usize) -> (kind: SourceKind)
    requires
        to <= lower.len(),
    ensures
        kind == tag_kind(lower@, from as int, to as int),
{
    proof {
        reveal_strlit("lang=\"tsx\"");
        reveal_strlit("lang='tsx'");
        reveal_strlit("lang=tsx");
    }
    if find_between(lower, from, to, ascii_str_bytes("lang=\"tsx\"")).is_some() || find_between(
        lower,
        from,
        to,
        ascii_str_bytes("lang='tsx'"),
    ).is_some() || find_between(lower, from, to, ascii_str_bytes("lang=tsx")).is_some() {
        SourceKind::Tsx
    } else {
        SourceKind::Ts
    }
}

/// The script regions of a component file, in the order of the text.
pub fn extract_vue_scripts(source: &str) -> (out: Vec<VueScriptBlock>)
    ensures
        block_views(out@) == script_regions(source.spec_bytes(), 0),
{
    broadcast use vstd::utf8::group_utf8_lib;
    let ghost text = source.spec_bytes();
    let bytes = source.as_bytes();
    let lower_vec = to_lower(bytes);
    let lower = lower_vec.as_slice();
    let len = lower.len();
    proof {
        reveal_strlit("<script");
        reveal_strlit(">");
        reveal_strlit("</script>");
        reveal_strlit("src=");
        lemma_tokens();
        encode_utf8_valid_utf8(source@);
    }
    let open = ascii_str_bytes("<script");
    let gt = ascii_str_bytes(">");
    let close = ascii_str_bytes("</script>");
    let src_attr = ascii_str_bytes("src=");
    let mut out: Vec<VueScriptBlock> = Vec::new();
    let mut search_from: usize = 0;
    assert(block_views(out@) =~= Seq::empty());
    loop
        invariant
            text == source.spec_bytes(),
            valid_utf8(text),
            bytes@ == text,
            lower@ == lowered(text),
            len == text.len(),
            open@ == open_tag(),
            gt@ == tag_end(),
            close@ == close_tag(),
            src_attr@ == ascii_bytes("src="@),
            search_from <= len,
            script_regions(text, 0) == block_views(out@) + script_regions(text, search_from as int),
        decreases len - search_from,
    {
        proof {
            lemma_tokens();
            lemma_locate(lower@, search_from as int);
            lemma_first_match(lower@, search_from as int, len as int, open_tag());
        }
        let tag_start = match find_between(lower, search_from, len, open) {
            Some(at) => at,
            None => {
                return out;
            },
        };
        proof {
            lemma_first_match(lower@, tag_start + 7, len as int, tag_end());
        }
        let tag_end = match find_between(lower, tag_start + 7, len, gt) {
            Some(at) => at,
            None => {
                return out;
            },
        };
        proof {
            lemma_first_match(lower@, tag_end + 1, len as int, close_tag());
        }
        let close_start = match find_between(lower, tag_end + 1, len, close) {
            Some(at) => at,
            None => {
                return out;
            },
        };
        let ghost bounds = RegionBounds {
            tag_start: tag_start as int,
            tag_end: tag_end as int,
            close_start: close_start as int,
        };
        assert(locate(lower@, search_from as int) == Some(bounds));
        let next = close_start + 9;
        let ghost rest = script_regions(text, next as int);
        if find_between(lower, tag_start + 7, tag_end, src_attr).is_some() {
            assert(script_regions(text, search_from as int) == rest);
        } else {
            let kind = kind_of_tag(lower, tag_start + 7, tag_end);
            let line_offset = count_line_feeds(bytes, tag_end + 1);
            proof {
                assert(lower@[tag_end as int] == lower_byte(text[tag_end as int]));
                assert(lower@[close_start as int] == lower_byte(text[close_start as int]));
                lemma_ascii_cut_points(text, tag_end as int);
                lemma_ascii_cut_points(text, close_start as int);
            }
            let content = String::from_str(str_slice(source, tag_end + 1, close_start));
            let block = VueScriptBlock { content, line_offset, kind };
            assert(block@ == region_at(text, bounds));
            let ghost before = out@;
            out.push(block);
            assert(block_views(out@) =~= block_views(before) + seq![block@]);
            assert(script_regions(text, search_from as int) == seq![block@] + rest);
            assert(block_views(before) + (seq![block@] + rest) =~= block_views(out@) + rest);
        }
        search_from = next;
    }
}

} // verus!

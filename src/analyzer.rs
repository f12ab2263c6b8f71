use vstd::prelude::*;
use vstd::string::StrSliceExecFns;

verus! {

/// A page to classify.
#[derive(Debug, Clone)]
pub struct ProductAnalysisRequest {
    pub url: String,
    pub page_title: String,
    pub text_content: String,
    pub images: Option<Vec<String>>,
}

/// Whether a page sells a product; `confidence` in thousandths.
#[derive(Debug, Clone)]
pub struct ProductAnalysisResponse {
    pub is_product_page: bool,
    pub confidence: u32,
    pub source: String,
    pub evidence: Vec<String>,
}

/// `needle` occurs in `hay` at position `i`.
pub open spec fn occurs_at(hay: Seq<char>, needle: Seq<char>, i: int) -> bool {
    0 <= i && i + needle.len() <= hay.len() && hay.subrange(i, i + needle.len()) == needle
}

pub open spec fn occurs_in(hay: Seq<char>, needle: Seq<char>) -> bool {
    exists|i: int| #[trigger] occurs_at(hay, needle, i)
}

fn matches_at(hay: &str, needle: &str, hl: usize, nl: usize, i: usize) -> (r: bool)
    requires
        hl == hay@.len(),
        nl == needle@.len(),
        i + nl <= hl,
    ensures
        r == occurs_at(hay@, needle@, i as int),
{
    let mut j: usize = 0;
    while j < nl
        invariant
            hl == hay@.len(),
            nl == needle@.len(),
            i + nl <= hl,
            j <= nl,
            forall|k: int| 0 <= k < j ==> hay@[i + k] == needle@[k],
        decreases nl - j,
    {
        if hay.get_char(i + j) != needle.get_char(j) {
            assert(hay@.subrange(i as int, i + nl)[j as int] != needle@[j as int]);
            return false;
        }
        j = j + 1;
    }
    assert(hay@.subrange(i as int, i + nl) =~= needle@);
    true
}

/// Whether `needle` occurs in `hay`.
pub fn text_contains(hay: &str, needle: &str) -> (r: bool)
    ensures
        r == occurs_in(hay@, needle@),
{
    let hl = hay.unicode_len();
    let nl = needle.unicode_len();
    if nl > hl {
        assert forall|i: int| !#[trigger] occurs_at(hay@, needle@, i) by {}
        return false;
    }
    let mut i: usize = 0;
    while i < hl - nl
        invariant
            hl == hay@.len(),
            nl == needle@.len(),
            nl <= hl,
            i <= hl - nl,
            forall|k: int| 0 <= k < i ==> !#[trigger] occurs_at(hay@, needle@, k),
        decreases hl - nl - i,
    {
        if matches_at(hay, needle, hl, nl, i) {
            return true;
        }
        i = i + 1;
    }
    if matches_at(hay, needle, hl, nl, i) {
        return true;
    }
    assert forall|k: int| !#[trigger] occurs_at(hay@, needle@, k) by {
        if 0 <= k < i {
        }
    }
    false
}

/// Classifies pages by their address.
pub struct ProductAnalyzer;

impl ProductAnalyzer {
    pub fn new() -> (r: Self) {
        ProductAnalyzer
    }

    /// A page whose address mentions "product" is taken for a product page,
    /// with confidence 0.8; any other with confidence 0.2.
    pub fn analyze_product_page(&self, request: &ProductAnalysisRequest) -> (r: ProductAnalysisResponse)
        ensures
            r.is_product_page == occurs_in(request.url@, "product"@),
            r.confidence == if r.is_product_page { 800u32 } else { 200u32 },
            r.source@ == "rust-analyzer"@,
            r.evidence@.len() == 1,
            r.evidence@[0]@ == "url_analysis"@,
    {
        let is_product_page = text_contains(request.url.as_str(), "product");
        let confidence: u32 = if is_product_page { 800 } else { 200 };
        let evidence = vec![String::from_str("url_analysis")];
        ProductAnalysisResponse {
            is_product_page,
            confidence,
            source: String::from_str("rust-analyzer"),
            evidence,
        }
    }
}

} // verus!

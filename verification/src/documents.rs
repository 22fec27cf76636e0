//! The document reading tool's rules: what it tells the model it supports,
//! what it asks permission for, which files it reads and how a PDF's pages
//! become one text.

use vstd::prelude::*;
use crate::strvec::{copy_str, lists, views};
use crate::text::{join_push, join_with, lemma_join_push, str_eq};

verus! {

/// The arguments the model passes to the document reading tool.
#[derive(Debug, Clone)]
pub struct ReadDocumentArgs {
    pub path: String,
}

/// The supported extensions as the tool lists them: each with a leading dot,
/// separated by commas.
pub open spec fn dotted_list(exts: Seq<String>) -> Seq<char> {
    join_with(views(exts).map_values(|e: Seq<char>| "."@ + e), ", "@)
}

/// The tool's description for the model.
pub open spec fn read_tool_description(exts: Seq<String>) -> Seq<char> {
    "Read the content of a document or text file. Supports: "@ + dotted_list(exts)
        + ". Paths are resolved within the configured sandbox root(s)."@
}

/// Describes the document reading tool to the model, listing the allowed extensions.
pub fn read_document_description(allowed_extensions: &Vec<String>) -> (s: String)
    ensures
        s@ == read_tool_description(allowed_extensions@),
{
    let mut list = String::new();
    let mut i: usize = 0;
    let ghost parts = views(allowed_extensions@).map_values(|e: Seq<char>| "."@ + e);
    while i < allowed_extensions.len()
        invariant
            i <= allowed_extensions@.len(),
            parts == views(allowed_extensions@).map_values(|e: Seq<char>| "."@ + e),
            list@ == join_with(parts.take(i as int), ", "@),
        decreases allowed_extensions@.len() - i,
    {
        let mut item = String::from_str(".");
        item.append(allowed_extensions[i].as_str());
        proof {
            assert(parts.take(i + 1) =~= parts.take(i as int).push(item@));
            lemma_join_push(parts.take(i as int), ", "@, item@);
        }
        join_push(&mut list, i, ", ", item.as_str());
        i += 1;
    }
    assert(parts.take(parts.len() as int) =~= parts);
    let mut s = String::from_str("Read the content of a document or text file. Supports: ");
    s.append(list.as_str());
    s.append(". Paths are resolved within the configured sandbox root(s).");
    s
}

/// What the tool asks permission for when reading `path`.
pub open spec fn read_request(path: Seq<char>) -> Seq<char> {
    "Wants to read file asset at ["@ + path + "]"@
}

/// The permission request text for reading `path`.
pub fn read_request_description(path: &str) -> (s: String)
    ensures
        s@ == read_request(path@),
{
    let mut s = String::from_str("Wants to read file asset at [");
    s.append(path);
    s.append("]");
    s
}

/// How a document is read.
#[derive(Debug, Clone, Copy, PartialEq, Eq, Structural)]
pub enum DocumentKind {
    /// Its pages' text is extracted.
    Pdf,
    /// It is read as UTF-8 text.
    Text,
}

/// Decides how a resolved file is read: refused unless its extension (empty
/// when it has none) is allowed; PDFs have their text extracted, the rest
/// is read as text. A refusal carries the extension.
pub fn document_kind(extension: &str, allowed_extensions: &Vec<String>) -> (r: Result<DocumentKind, String>)
    ensures
        r is Ok <==> lists(allowed_extensions@, extension@),
        r matches Ok(k) ==> (k == DocumentKind::Pdf <==> extension@ == "pdf"@),
        r matches Err(e) ==> e@ == extension@,
{
    if !crate::strvec::contains_str(allowed_extensions, extension) {
        return Err(copy_str(extension));
    }
    if str_eq(extension, "pdf") {
        Ok(DocumentKind::Pdf)
    } else {
        Ok(DocumentKind::Text)
    }
}

/// The text of a PDF from its pages' texts: a newline goes before a page's
/// text unless nothing has been collected yet.
pub open spec fn pdf_text(pages: Seq<String>) -> Seq<char>
    decreases pages.len(),
{
    if pages.len() == 0 {
        Seq::empty()
    } else {
        let t = pdf_text(pages.drop_last());
        if t.len() == 0 {
            pages.last()@
        } else {
            t + "\n"@ + pages.last()@
        }
    }
}

/// Message of the error for a page whose text cannot be extracted (pages count from 1).
pub open spec fn page_failed(page: nat, err: Seq<char>) -> Seq<char> {
    "page "@ + crate::text::decimal(page) + " extraction failed: "@ + err
}

/// Joins the extracted pages of a PDF. `pages` holds, page by page, its
/// text or the error its extraction gave; extraction stops at the first
/// error, which is reported with the page number.
pub fn assemble_pdf_text(pages: &Vec<Result<String, String>>) -> (r: Result<String, String>)
    ensures
        r matches Ok(t) ==> (forall|k: int| 0 <= k < pages@.len() ==> #[trigger] pages@[k] is Ok)
            && t@ == pdf_text(pages@.map_values(|p: Result<String, String>| p->Ok_0)),
        r matches Err(m) ==> exists|k: int|
            0 <= k < pages@.len() && (#[trigger] pages@[k] matches Err(e) && m@ == page_failed(
                (k + 1) as nat,
                e@,
            )) && forall|j: int| 0 <= j < k ==> #[trigger] pages@[j] is Ok,
        r is Err <==> exists|k: int| 0 <= k < pages@.len() && #[trigger] pages@[k] is Err,
{
    let mut text = String::new();
    let mut i: usize = 0;
    let ghost texts = pages@.map_values(|p: Result<String, String>| p->Ok_0);
    while i < pages.len()
        invariant
            i <= pages@.len(),
            texts == pages@.map_values(|p: Result<String, String>| p->Ok_0),
            forall|j: int| 0 <= j < i ==> #[trigger] pages@[j] is Ok,
            text@ == pdf_text(texts.take(i as int)),
        decreases pages@.len() - i,
    {
        match &pages[i] {
            Ok(page_text) => {
                proof {
                    assert(texts.take(i + 1).drop_last() =~= texts.take(i as int));
                    assert(texts.take(i + 1).last() == *page_text);
                }
                if text.unicode_len() > 0 {
                    text.append("\n");
                }
                text.append(page_text.as_str());
            },
            Err(e) => {
                let mut m = String::from_str("page ");
                crate::text::push_decimal(&mut m, (i as u64) + 1);
                m.append(" extraction failed: ");
                m.append(e.as_str());
                return Err(m);
            },
        }
        i += 1;
    }
    assert(texts.take(texts.len() as int) =~= texts);
    Ok(text)
}

/// Loads PDF documents into the retrieval index.
pub struct JarvisPdfLoader;

impl JarvisPdfLoader {
    /// The metadata stored with a loaded PDF: its file name as source
    /// (`unknown` without one) and the file type `pdf`.
    pub fn metadata(&self, file_name: Option<&str>) -> (m: Vec<(String, String)>)
        ensures
            m@.len() == 2,
            m@[0].0@ == "source"@,
            m@[0].1@ == match file_name {
                Some(n) => n@,
                None => "unknown"@,
            },
            m@[1].0@ == "file_type"@,
            m@[1].1@ == "pdf"@,
    {
        let source = match file_name {
            Some(n) => copy_str(n),
            None => String::from_str("unknown"),
        };
        vec![(String::from_str("source"), source), (String::from_str("file_type"), String::from_str("pdf"))]
    }
}

/// Token counts of a prompt and its response.
#[derive(Debug, Clone, Copy, PartialEq, Eq, Structural)]
pub struct TokenCountResponse {
    pub prompt_tokens: usize,
    pub response_tokens: usize,
    pub total_tokens: usize,
}

/// The token counts of a prompt and a response (0 when there is none), with their total.
pub fn token_count_response(prompt_tokens: usize, response_tokens: usize) -> (r: TokenCountResponse)
    requires
        prompt_tokens + response_tokens <= usize::MAX,
    ensures
        r.prompt_tokens == prompt_tokens,
        r.response_tokens == response_tokens,
        r.total_tokens == prompt_tokens + response_tokens,
{
    TokenCountResponse { prompt_tokens, response_tokens, total_tokens: prompt_tokens + response_tokens }
}

} // verus!

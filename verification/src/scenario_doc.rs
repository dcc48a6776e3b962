//! Appending a saved scenario to the per-worktree scenario file.
//!
//! The file holds a top-level array of objects.  The embedding shell reads
//! the file and serializes the scenario; this module does the edit: a syntax
//! query over the parsed document locates the end of the last object in the
//! array, and the serialized scenario is indented one level and spliced in
//! behind a separating comma at that offset.  Everything works on bytes, as
//! the file does.

use vstd::prelude::*;

verus! {

/// The byte offset just past the last object of the document's top-level
/// array, when the document parses to an array that holds one: what the
/// syntax query below returns, a function of the document alone.
pub uninterp spec fn last_object_end_of(document: Seq<u8>) -> Option<usize>;

/// Relies on tree_sitter's parser and query engine with the JSON grammar of
/// tree_sitter_json: matching `(document (array (object) @object))` against a
/// byte string is deterministic, every reported capture lies inside the
/// parsed text, and the matches come in document order, so the loop keeps the
/// offset past the last object of the top-level array.
#[verifier::external_body]
fn find_last_object_end(document: &Vec<u8>) -> (r: Option<usize>)
    ensures
        r == last_object_end_of(document@),
        r matches Some(at) ==> at <= document@.len(),
{
    let language: tree_sitter::Language = tree_sitter_json::LANGUAGE.into();
    let query = tree_sitter::Query::new(&language, "(document (array (object) @object))").ok()?;
    let mut parser = tree_sitter::Parser::new();
    parser.set_language(&language).ok()?;
    let tree = parser.parse(document.as_slice(), None)?;
    let mut cursor = tree_sitter::QueryCursor::new();
    let mut matches = cursor.matches(&query, tree.root_node(), document.as_slice());
    let mut last = None;
    while let Some(found) = tree_sitter::StreamingIterator::next(&mut matches) {
        if let Some(capture) = found.captures().first() {
            last = Some(capture.node.byte_range().end);
        }
    }
    last
}

/// Line feed.
pub open spec fn lf() -> u8 {
    10u8
}

/// Space.
pub open spec fn sp() -> u8 {
    32u8
}

/// `text` with two spaces inserted after every line feed: every line after
/// the first moved one indentation level right.
pub open spec fn indented(text: Seq<u8>) -> Seq<u8>
    decreases text.len(),
{
    if text.len() == 0 {
        Seq::empty()
    } else if text[0] == lf() {
        seq![lf(), sp(), sp()] + indented(text.drop_first())
    } else {
        seq![text[0]] + indented(text.drop_first())
    }
}

/// `text` indented one level throughout: two leading spaces, and two more
/// after every line feed.
pub open spec fn indented_block(text: Seq<u8>) -> Seq<u8> {
    seq![sp(), sp()] + indented(text)
}

/// The bytes that separate the spliced entry from the object before it: a
/// comma and a line break.
pub open spec fn entry_separator() -> Seq<u8> {
    seq![44u8, lf()]
}

/// The document after the edit: the separator and the indented entry spliced
/// in at `at`.
pub open spec fn spliced(doc: Seq<u8>, entry: Seq<u8>, at: int) -> Seq<u8> {
    doc.subrange(0, at) + entry_separator() + indented_block(entry) + doc.subrange(
        at,
        doc.len() as int,
    )
}

/// Indenting distributes over appending one byte.
proof fn lemma_indented_push(text: Seq<u8>, byte: u8)
    ensures
        indented(text.push(byte)) == indented(text) + (if byte == lf() {
            seq![lf(), sp(), sp()]
        } else {
            seq![byte]
        }),
    decreases text.len(),
{
    let tail = if byte == lf() {
        seq![lf(), sp(), sp()]
    } else {
        seq![byte]
    };
    if text.len() == 0 {
        let p = text.push(byte);
        assert(p.len() == 1 && p[0] == byte);
        assert(p.drop_first() =~= Seq::<u8>::empty());
        assert(indented(Seq::<u8>::empty()) == Seq::<u8>::empty());
        assert(indented(p) == tail + indented(p.drop_first()));
        assert(indented(p) =~= indented(text) + tail);
    } else {
        assert(text.push(byte).drop_first() =~= text.drop_first().push(byte));
        lemma_indented_push(text.drop_first(), byte);
        if text[0] == lf() {
            assert(seq![lf(), sp(), sp()] + (indented(text.drop_first()) + tail) =~= (seq![
                lf(),
                sp(),
                sp(),
            ] + indented(text.drop_first())) + tail);
        } else {
            assert(seq![text[0]] + (indented(text.drop_first()) + tail) =~= (seq![text[0]]
                + indented(text.drop_first())) + tail);
        }
    }
}

/// Indent a serialized scenario one level: two leading spaces and two more
/// after every line feed.
pub fn indent_lines(entry: &Vec<u8>) -> (r: Vec<u8>)
    ensures
        r@ == indented_block(entry@),
{
    let mut out: Vec<u8> = Vec::new();
    out.push(32);
    out.push(32);
    let mut i: usize = 0;
    while i < entry.len()
        invariant
            i <= entry@.len(),
            out@ == seq![sp(), sp()] + indented(entry@.subrange(0, i as int)),
        decreases entry@.len() - i,
    {
        let ghost prefix = entry@.subrange(0, i as int);
        let byte = entry[i];
        if byte == 10 {
            out.push(10);
            out.push(32);
            out.push(32);
        } else {
            out.push(byte);
        }
        proof {
            lemma_indented_push(prefix, byte);
            assert(entry@.subrange(0, i + 1) =~= prefix.push(byte));
            let tail = if byte == lf() {
                seq![lf(), sp(), sp()]
            } else {
                seq![byte]
            };
            assert(out@ =~= seq![sp(), sp()] + (indented(prefix) + tail));
        }
        i += 1;
    }
    proof {
        assert(entry@.subrange(0, entry@.len() as int) =~= entry@);
    }
    out
}

/// Splice the serialized scenario, behind a separating comma, into the
/// document at `insert_at`.
pub fn splice_scenario(document: &Vec<u8>, entry: &Vec<u8>, insert_at: usize) -> (r: Vec<u8>)
    requires
        insert_at <= document@.len(),
    ensures
        r@ == spliced(document@, entry@, insert_at as int),
{
    let mut out: Vec<u8> = Vec::new();
    let mut i: usize = 0;
    while i < insert_at
        invariant
            i <= insert_at <= document@.len(),
            out@ == document@.subrange(0, i as int),
        decreases insert_at - i,
    {
        out.push(document[i]);
        proof {
            assert(document@.subrange(0, i + 1) =~= document@.subrange(0, i as int).push(
                document@[i as int],
            ));
        }
        i += 1;
    }
    out.push(44);
    out.push(10);
    let ghost with_sep = document@.subrange(0, insert_at as int) + entry_separator();
    proof {
        assert(out@ =~= with_sep);
    }
    let block = indent_lines(entry);
    let mut j: usize = 0;
    while j < block.len()
        invariant
            j <= block@.len(),
            block@ == indented_block(entry@),
            out@ == with_sep + block@.subrange(0, j as int),
        decreases block@.len() - j,
    {
        out.push(block[j]);
        proof {
            assert(block@.subrange(0, j + 1) =~= block@.subrange(0, j as int).push(
                block@[j as int],
            ));
            assert(with_sep + block@.subrange(0, j as int).push(block@[j as int]) =~= (with_sep
                + block@.subrange(0, j as int)).push(block@[j as int]));
        }
        j += 1;
    }
    proof {
        assert(block@.subrange(0, block@.len() as int) =~= block@);
    }
    let ghost with_block = with_sep + indented_block(entry@);
    let mut k: usize = insert_at;
    while k < document.len()
        invariant
            insert_at <= k <= document@.len(),
            out@ == with_block + document@.subrange(insert_at as int, k as int),
        decreases document@.len() - k,
    {
        out.push(document[k]);
        proof {
            assert(document@.subrange(insert_at as int, k + 1) =~= document@.subrange(
                insert_at as int,
                k as int,
            ).push(document@[k as int]));
            assert(with_block + document@.subrange(insert_at as int, k as int).push(
                document@[k as int],
            ) =~= (with_block + document@.subrange(insert_at as int, k as int)).push(
                document@[k as int],
            ));
        }
        k += 1;
    }
    proof {
        assert(out@ =~= spliced(document@, entry@, insert_at as int));
    }
    out
}

/// The whole edit: splice the entry in at the end of the document's last
/// top-level array object, when the syntax query finds one; a document
/// without one is left unedited.
pub fn append_scenario(document: &Vec<u8>, entry: &Vec<u8>) -> (r: Option<Vec<u8>>)
    ensures
        match last_object_end_of(document@) {
            Some(at) => r matches Some(doc) && doc@ == spliced(document@, entry@, at as int),
            None => r is None,
        },
{
    match find_last_object_end(document) {
        Some(at) => Some(splice_scenario(document, entry, at)),
        None => None,
    }
}

} // verus!

//! Symbols: what is a definition, and where symbols are defined and used.
use vstd::prelude::*;

use crate::routing::MultiStoreContext;
use crate::score::Score;
use crate::sorting;
use crate::sorting::sort_places;
use crate::text;
use crate::text::{chars_of, concat, match_at, owned, starts_with, str_eq};
use crate::types;
use crate::types::{copy_opt, Candidate, ChunkMeta, ReferenceItem, Reply};

verus! {

// ---------------------------------------------------------------------------
// Definitions
// ---------------------------------------------------------------------------

/// A chunk of this kind defines a symbol.
pub open spec fn is_definition_kind(kind: Seq<char>) -> bool {
    kind == "Function"@ || kind == "Class"@ || kind == "Method"@ || kind == "Struct"@ || kind
        == "Trait"@ || kind == "Enum"@ || kind == "TypeAlias"@ || kind == "Interface"@
}

/// Whether a chunk of this kind defines a symbol.
pub fn definition_kind(kind: &str) -> (r: bool)
    ensures
        r == is_definition_kind(kind@),
{
    str_eq(kind, "Function") || str_eq(kind, "Class") || str_eq(kind, "Method") || str_eq(
        kind,
        "Struct",
    ) || str_eq(kind, "Trait") || str_eq(kind, "Enum") || str_eq(kind, "TypeAlias") || str_eq(
        kind,
        "Interface",
    )
}

/// A name can end before character `i` of a signature.
pub open spec fn name_ends_at(sig: Seq<char>, i: int) -> bool {
    i == sig.len() || (0 <= i < sig.len() && (sig[i] == '(' || sig[i] == '<' || sig[i] == ':'
        || sig[i] == ' ' || sig[i] == '\t'))
}

/// A name can begin at character `i` of a signature.
pub open spec fn name_begins_at(sig: Seq<char>, i: int) -> bool {
    i == 0 || (0 < i <= sig.len() && (sig[i - 1] == ' ' || sig[i - 1] == '\t'))
}

/// The symbol stands in the signature at character `i` as a word of its own.
pub open spec fn word_at(sig: Seq<char>, symbol: Seq<char>, i: int) -> bool {
    text::occurs_at(sig, symbol, i) && name_begins_at(sig, i) && name_ends_at(
        sig,
        i + symbol.len(),
    )
}

/// The symbol stands in the signature as a word of its own.
pub open spec fn has_word(sig: Seq<char>, symbol: Seq<char>) -> bool {
    exists|i: int| word_at(sig, symbol, i)
}

/// The signature begins with a keyword and the symbol.
pub open spec fn declares(sig: Seq<char>, keyword: Seq<char>, symbol: Seq<char>) -> bool {
    text::begins_with(sig, keyword) && text::occurs_at(sig, symbol, keyword.len() as int)
        && name_ends_at(sig, keyword.len() as int + symbol.len())
}

/// The signature begins with one of the keywords of a definition and the
/// symbol.
pub open spec fn declares_any(sig: Seq<char>, symbol: Seq<char>) -> bool {
    ||| declares(sig, "fn "@, symbol)
    ||| declares(sig, "def "@, symbol)
    ||| declares(sig, "class "@, symbol)
    ||| declares(sig, "struct "@, symbol)
    ||| declares(sig, "enum "@, symbol)
    ||| declares(sig, "trait "@, symbol)
    ||| declares(sig, "type "@, symbol)
    ||| declares(sig, "interface "@, symbol)
    ||| declares(sig, "impl "@, symbol)
    ||| declares(sig, "pub fn "@, symbol)
    ||| declares(sig, "pub async fn "@, symbol)
    ||| declares(sig, "pub struct "@, symbol)
    ||| declares(sig, "pub enum "@, symbol)
    ||| declares(sig, "pub trait "@, symbol)
    ||| declares(sig, "pub type "@, symbol)
    ||| declares(sig, "async fn "@, symbol)
    ||| declares(sig, "const "@, symbol)
    ||| declares(sig, "static "@, symbol)
}

/// A chunk of this kind and with this signature defines the symbol.
pub open spec fn defines(kind: Seq<char>, signature: Option<Seq<char>>, symbol: Seq<char>) -> bool {
    &&& is_definition_kind(kind)
    &&& signature is Some
    &&& signature->0.len() > 0
    &&& declares_any(signature->0, symbol) || has_word(signature->0, symbol)
}

fn ends_name(sig: &[char], i: usize) -> (r: bool)
    requires
        i <= sig.len(),
    ensures
        r == name_ends_at(sig@, i as int),
{
    i == sig.len() || sig[i] == '(' || sig[i] == '<' || sig[i] == ':' || sig[i] == ' ' || sig[i]
        == '\t'
}

fn declared(sig: &[char], keyword: &str, symbol: &[char]) -> (r: bool)
    ensures
        r == declares(sig@, keyword@, symbol@),
{
    let k = chars_of(keyword);
    if !starts_with(sig, k.as_slice()) || !match_at(sig, symbol, k.len()) {
        return false;
    }
    let n: usize = sig.len();
    assert(k@.len() + symbol@.len() <= n);
    ends_name(sig, k.len() + symbol.len())
}

/// Whether the symbol stands in the signature as a word of its own: behind a
/// space, a tab or nothing, and before `(`, `<`, `:`, a space, a tab or nothing.
pub fn contains_symbol_as_word(sig: &str, symbol: &str) -> (r: bool)
    ensures
        r == has_word(sig@, symbol@),
{
    let sv = chars_of(sig);
    let s = sv.as_slice();
    let p = chars_of(symbol);
    if p.len() > s.len() {
        return false;
    }
    let last: usize = s.len() - p.len();
    let mut i: usize = 0;
    loop
        invariant
            s@ == sig@,
            p@ == symbol@,
            last + p.len() == s.len(),
            i <= last,
            forall|j: int| 0 <= j < i ==> !word_at(s@, p@, j),
        decreases last - i,
    {
        if match_at(s, p.as_slice(), i) {
            let begins = i == 0 || s[i - 1] == ' ' || s[i - 1] == '\t';
            if begins && ends_name(s, i + p.len()) {
                assert(word_at(s@, p@, i as int));
                return true;
            }
        }
        if i == last {
            return false;
        }
        i += 1;
    }
}

/// Whether a chunk defines the symbol: it is of a kind that defines something,
/// and its signature begins with a keyword and the symbol or holds the symbol
/// as a word of its own.
pub fn is_definition_chunk(kind: &str, signature: &Option<String>, symbol: &str) -> (r: bool)
    ensures
        r == defines(kind@, types::opt_text(*signature), symbol@),
{
    if !definition_kind(kind) {
        return false;
    }
    let sig = match signature {
        Some(s) => s,
        None => {
            return false;
        },
    };
    let sv = chars_of(sig.as_str());
    let s = sv.as_slice();
    if s.len() == 0 {
        return false;
    }
    let pv = chars_of(symbol);
    let p = pv.as_slice();
    if declared(s, "fn ", p) || declared(s, "def ", p) || declared(s, "class ", p) || declared(
        s,
        "struct ",
        p,
    ) || declared(s, "enum ", p) || declared(s, "trait ", p) || declared(s, "type ", p) || declared(
        s,
        "interface ",
        p,
    ) || declared(s, "impl ", p) || declared(s, "pub fn ", p) || declared(s, "pub async fn ", p)
        || declared(s, "pub struct ", p) || declared(s, "pub enum ", p) || declared(
        s,
        "pub trait ",
        p,
    ) || declared(s, "pub type ", p) || declared(s, "async fn ", p) || declared(s, "const ", p)
        || declared(s, "static ", p) {
        return true;
    }
    contains_symbol_as_word(sig.as_str(), symbol)
}

// ---------------------------------------------------------------------------
// References
// ---------------------------------------------------------------------------

/// A reference, without its containers.
#[verifier::ext_equal]
pub struct Reference {
    pub chunk_id: u32,
    pub path: Seq<char>,
    pub line: int,
    pub kind: Seq<char>,
    pub signature: Option<Seq<char>>,
    pub score: Score,
}

/// What an item says.
pub open spec fn reference_of(item: ReferenceItem) -> Reference {
    Reference {
        chunk_id: item.chunk_id,
        path: item.path@,
        line: item.line as int,
        kind: item.kind@,
        signature: types::opt_text(item.signature),
        score: item.score,
    }
}

/// What the items say.
pub open spec fn references_of(items: Seq<ReferenceItem>) -> Seq<Reference> {
    Seq::new(items.len(), |i: int| reference_of(items[i]))
}

/// The reference to a chunk that was found, under the path that is shown.
pub open spec fn reference_to(c: Candidate, chunk: ChunkMeta, ctx: MultiStoreContext) -> Reference {
    Reference {
        chunk_id: c.chunk_id,
        path: ctx.shown_path(chunk.path@),
        line: chunk.start_line as int,
        kind: chunk.kind@,
        signature: types::opt_text(chunk.signature),
        score: c.score,
    }
}

fn refer(c: &Candidate, chunk: &ChunkMeta, ctx: &MultiStoreContext) -> (r: ReferenceItem)
    ensures
        reference_of(r) == reference_to(*c, *chunk, *ctx),
{
    ReferenceItem {
        chunk_id: c.chunk_id,
        path: ctx.prefix_result_path(chunk.path.as_str()),
        line: chunk.start_line,
        kind: chunk.kind.clone(),
        signature: copy_opt(&chunk.signature),
        score: c.score,
    }
}

/// The definition that a candidate stands for: its chunk is of a kind that
/// defines something, and of the kind that is asked for.
pub open spec fn definition_of(c: Candidate, kind: Option<Seq<char>>, ctx: MultiStoreContext) -> Option<
    Reference,
> {
    match c.found() {
        Some(chunk) => if is_definition_kind(chunk.kind@) && (kind is Some ==> chunk.kind@
            == kind->0) {
            Some(reference_to(c, chunk, ctx))
        } else {
            None
        },
        None => None,
    }
}

/// The definitions among the candidates, in their order.
pub open spec fn definitions_of(
    candidates: Seq<Candidate>,
    kind: Option<Seq<char>>,
    ctx: MultiStoreContext,
) -> Seq<Reference>
    decreases candidates.len(),
{
    if candidates.len() == 0 {
        Seq::empty()
    } else {
        let before = definitions_of(candidates.drop_last(), kind, ctx);
        match definition_of(candidates.last(), kind, ctx) {
            Some(r) => before.push(r),
            None => before,
        }
    }
}

proof fn lemma_definitions_prefix(
    candidates: Seq<Candidate>,
    kind: Option<Seq<char>>,
    ctx: MultiStoreContext,
    n: int,
)
    requires
        0 <= n <= candidates.len(),
    ensures
        definitions_of(candidates.take(n), kind, ctx).len() <= definitions_of(
            candidates,
            kind,
            ctx,
        ).len(),
        definitions_of(candidates.take(n), kind, ctx) == definitions_of(
            candidates,
            kind,
            ctx,
        ).take(definitions_of(candidates.take(n), kind, ctx).len() as int),
    decreases candidates.len() - n,
{
    let a = definitions_of(candidates.take(n), kind, ctx);
    let all = definitions_of(candidates, kind, ctx);
    if n == candidates.len() {
        assert(candidates.take(n) =~= candidates);
        assert(all.take(all.len() as int) =~= all);
    } else {
        lemma_definitions_prefix(candidates, kind, ctx, n + 1);
        let b = definitions_of(candidates.take(n + 1), kind, ctx);
        assert(candidates.take(n + 1).drop_last() =~= candidates.take(n));
        assert(a =~= b.take(a.len() as int));
        assert(a =~= all.take(a.len() as int));
    }
}

/// How many definitions are reported, and how many hits are looked through for
/// them.
pub fn definition_limits(limit: Option<usize>) -> (r: (usize, usize))
    requires
        limit matches Some(l) ==> l * 3 <= usize::MAX,
    ensures
        r.0 == (match limit {
            Some(l) => l,
            None => 20,
        }),
        r.1 == r.0 * 3,
{
    let l: usize = match limit {
        Some(l) => l,
        None => 20,
    };
    (l, l * 3)
}

/// How many usages are reported, and how many hits are looked through for them.
pub fn usage_limits(limit: Option<usize>) -> (r: (usize, usize))
    requires
        limit matches Some(l) ==> l * 2 <= usize::MAX,
    ensures
        r.0 == (match limit {
            Some(l) => l,
            None => 20,
        }),
        r.1 == r.0 * 2,
{
    let l: usize = match limit {
        Some(l) => l,
        None => 20,
    };
    (l, l * 2)
}

/// The definitions of a symbol among the candidates of the full-text search, or
/// a message where there are none.
pub fn find_definition(
    candidates: &Vec<Candidate>,
    symbol: &str,
    kind: &Option<String>,
    limit: usize,
    ctx: &MultiStoreContext,
) -> (r: Reply<ReferenceItem>)
    ensures
        ({
            let found = types::at_most(
                definitions_of(candidates@, types::opt_text(*kind), *ctx),
                limit as int,
            );
            if candidates@.len() == 0 {
                r matches Reply::Message(m) && m@ == "No definition found for '"@ + symbol@
                    + "'. The symbol may not be indexed."@
            } else if found.len() == 0 {
                r matches Reply::Message(m) && m@ == "No definition found for '"@ + symbol@
                    + "'. Try find_usages() to find references, or broaden your search."@
            } else {
                r matches Reply::Items(items) && references_of(items@) == found
            }
        }),
{
    if candidates.len() == 0 {
        return Reply::Message(
            concat(
                concat("No definition found for '", symbol).as_str(),
                "'. The symbol may not be indexed.",
            ),
        );
    }
    let ghost k = types::opt_text(*kind);
    let mut out: Vec<ReferenceItem> = Vec::new();
    let mut i: usize = 0;
    proof {
        assert(references_of(out@) =~= definitions_of(candidates@.take(0), k, *ctx));
    }
    while i < candidates.len() && out.len() < limit
        invariant
            i <= candidates.len(),
            out.len() <= limit,
            k == types::opt_text(*kind),
            references_of(out@) == definitions_of(candidates@.take(i as int), k, *ctx),
        decreases candidates.len() - i,
    {
        let c = &candidates[i];
        let ghost before = references_of(out@);
        proof {
            assert(candidates@.take(i + 1).drop_last() =~= candidates@.take(i as int));
            assert(candidates@.take(i + 1).last() == *c);
        }
        match c.find_chunk() {
            Some(chunk) => {
                let wanted = match kind {
                    Some(k) => str_eq(chunk.kind.as_str(), k.as_str()),
                    None => true,
                };
                if definition_kind(chunk.kind.as_str()) && wanted {
                    out.push(refer(c, chunk, ctx));
                    proof {
                        assert(references_of(out@) =~= before.push(
                            reference_to(*c, *chunk, *ctx),
                        ));
                    }
                }
            },
            None => {},
        }
        i += 1;
    }
    proof {
        lemma_definitions_prefix(candidates@, k, *ctx, i as int);
        if i == candidates.len() {
            assert(candidates@.take(i as int) =~= candidates@);
        }
        assert(references_of(out@) =~= types::at_most(
            definitions_of(candidates@, k, *ctx),
            limit as int,
        ));
    }
    if out.len() == 0 {
        return Reply::Message(
            concat(
                concat("No definition found for '", symbol).as_str(),
                "'. Try find_usages() to find references, or broaden your search.",
            ),
        );
    }
    Reply::Items(out)
}

/// The usage that a candidate stands for: its chunk does not define the symbol.
pub open spec fn usage_of(c: Candidate, symbol: Seq<char>, ctx: MultiStoreContext) -> Option<
    Reference,
> {
    match c.found() {
        Some(chunk) => if defines(chunk.kind@, types::opt_text(chunk.signature), symbol) {
            None
        } else {
            Some(reference_to(c, chunk, ctx))
        },
        None => None,
    }
}

/// The usages among the candidates, in their order.
pub open spec fn usages_of(
    candidates: Seq<Candidate>,
    symbol: Seq<char>,
    ctx: MultiStoreContext,
) -> Seq<Reference>
    decreases candidates.len(),
{
    if candidates.len() == 0 {
        Seq::empty()
    } else {
        let before = usages_of(candidates.drop_last(), symbol, ctx);
        match usage_of(candidates.last(), symbol, ctx) {
            Some(r) => before.push(r),
            None => before,
        }
    }
}

proof fn lemma_usages_prefix(
    candidates: Seq<Candidate>,
    symbol: Seq<char>,
    ctx: MultiStoreContext,
    n: int,
)
    requires
        0 <= n <= candidates.len(),
    ensures
        usages_of(candidates.take(n), symbol, ctx).len() <= usages_of(candidates, symbol, ctx).len(),
        usages_of(candidates.take(n), symbol, ctx) == usages_of(candidates, symbol, ctx).take(
            usages_of(candidates.take(n), symbol, ctx).len() as int,
        ),
    decreases candidates.len() - n,
{
    let a = usages_of(candidates.take(n), symbol, ctx);
    let all = usages_of(candidates, symbol, ctx);
    if n == candidates.len() {
        assert(candidates.take(n) =~= candidates);
        assert(all.take(all.len() as int) =~= all);
    } else {
        lemma_usages_prefix(candidates, symbol, ctx, n + 1);
        let b = usages_of(candidates.take(n + 1), symbol, ctx);
        assert(candidates.take(n + 1).drop_last() =~= candidates.take(n));
        assert(a =~= b.take(a.len() as int));
        assert(a =~= all.take(a.len() as int));
    }
}

/// The usages that a search brings.
pub open spec fn usages_found(
    candidates: Seq<Candidate>,
    symbol: Seq<char>,
    limit: int,
    ctx: MultiStoreContext,
) -> Seq<Reference> {
    types::at_most(usages_of(candidates, symbol, ctx), limit)
}

/// The usages of a symbol among the candidates of the full-text search, or a
/// message where there are none.
pub fn find_usages(
    candidates: &Vec<Candidate>,
    symbol: &str,
    limit: usize,
    ctx: &MultiStoreContext,
) -> (r: Reply<ReferenceItem>)
    ensures
        ({
            let found = usages_found(candidates@, symbol@, limit as int, *ctx);
            if candidates@.len() == 0 {
                r matches Reply::Message(m) && m@ == "No usages found for '"@ + symbol@
                    + "'. The symbol may not be indexed."@
            } else if found.len() == 0 {
                r matches Reply::Message(m) && m@ == "No usages found for '"@ + symbol@
                    + "' (only definitions were found). Try find_definition() to locate the declaration."@
            } else {
                r matches Reply::Items(items) && references_of(items@) == found
            }
        }),
{
    if candidates.len() == 0 {
        return Reply::Message(
            concat(
                concat("No usages found for '", symbol).as_str(),
                "'. The symbol may not be indexed.",
            ),
        );
    }
    let mut out: Vec<ReferenceItem> = Vec::new();
    let mut i: usize = 0;
    proof {
        assert(references_of(out@) =~= usages_of(candidates@.take(0), symbol@, *ctx));
    }
    while i < candidates.len() && out.len() < limit
        invariant
            i <= candidates.len(),
            out.len() <= limit,
            references_of(out@) == usages_of(candidates@.take(i as int), symbol@, *ctx),
        decreases candidates.len() - i,
    {
        let c = &candidates[i];
        let ghost before = references_of(out@);
        proof {
            assert(candidates@.take(i + 1).drop_last() =~= candidates@.take(i as int));
            assert(candidates@.take(i + 1).last() == *c);
        }
        match c.find_chunk() {
            Some(chunk) => {
                if !is_definition_chunk(chunk.kind.as_str(), &chunk.signature, symbol) {
                    out.push(refer(c, chunk, ctx));
                    proof {
                        assert(references_of(out@) =~= before.push(
                            reference_to(*c, *chunk, *ctx),
                        ));
                    }
                }
            },
            None => {},
        }
        i += 1;
    }
    proof {
        lemma_usages_prefix(candidates@, symbol@, *ctx, i as int);
        if i == candidates.len() {
            assert(candidates@.take(i as int) =~= candidates@);
        }
        assert(references_of(out@) =~= usages_found(candidates@, symbol@, limit as int, *ctx));
    }
    if out.len() == 0 {
        return Reply::Message(
            concat(
                concat("No usages found for '", symbol).as_str(),
                "' (only definitions were found). Try find_definition() to locate the declaration.",
            ),
        );
    }
    Reply::Items(out)
}

/// No usage that is reported is a chunk that defines the symbol, and each is
/// the chunk of one of the candidates.
pub proof fn law_usages_are_no_definitions(
    candidates: Seq<Candidate>,
    symbol: Seq<char>,
    ctx: MultiStoreContext,
    i: int,
)
    requires
        0 <= i < usages_of(candidates, symbol, ctx).len(),
    ensures
        !defines(
            usages_of(candidates, symbol, ctx)[i].kind,
            usages_of(candidates, symbol, ctx)[i].signature,
            symbol,
        ),
        exists|k: int|
            0 <= k < candidates.len() && usage_of(#[trigger] candidates[k], symbol, ctx) == Some(
                usages_of(candidates, symbol, ctx)[i],
            ),
    decreases candidates.len(),
{
    let front = candidates.drop_last();
    let before = usages_of(front, symbol, ctx);
    if i < before.len() {
        law_usages_are_no_definitions(front, symbol, ctx, i);
        let k = choose|k: int|
            0 <= k < front.len() && usage_of(#[trigger] front[k], symbol, ctx) == Some(before[i]);
        assert(candidates[k] == front[k]);
    } else {
        assert(usage_of(candidates[candidates.len() - 1], symbol, ctx) == Some(
            usages_of(candidates, symbol, ctx)[i],
        ));
    }
}

// ---------------------------------------------------------------------------
// Outlines
// ---------------------------------------------------------------------------

/// One symbol of the outline of a file.
#[derive(Debug)]
pub struct FileOutlineItem {
    pub chunk_id: u32,
    pub kind: String,
    pub signature: Option<String>,
    pub start_line: usize,
    pub end_line: usize,
}

/// The first lines of the items.
pub open spec fn start_lines(items: Seq<FileOutlineItem>) -> Seq<usize> {
    items.map_values(|i: FileOutlineItem| i.start_line)
}

/// The outline of a file, in the order of the lines, or a message where nothing
/// of the file is indexed.
pub fn file_outline(items: &Vec<FileOutlineItem>) -> (r: Reply<FileOutlineItem>)
    ensures
        if items@.len() == 0 {
            r matches Reply::Message(m) && m@
                == "No indexed chunks found for path. Verify the file is within the project root and the index is up to date."@
        } else {
            r matches Reply::Items(v) && v@ == sorting::sorted_by(start_lines(items@), items@)
        },
{
    if items.len() == 0 {
        return Reply::Message(
            owned(
                "No indexed chunks found for path. Verify the file is within the project root and the index is up to date.",
            ),
        );
    }
    let mut keys: Vec<usize> = Vec::new();
    let mut i: usize = 0;
    while i < items.len()
        invariant
            i <= items.len(),
            keys@ == start_lines(items@).take(i as int),
        decreases items.len() - i,
    {
        keys.push(items[i].start_line);
        i += 1;
    }
    proof {
        assert(keys@ =~= start_lines(items@));
    }
    let order = sort_places(&keys);
    let ghost all = sorting::sorted_by(start_lines(items@), items@);
    let mut out: Vec<FileOutlineItem> = Vec::new();
    let mut j: usize = 0;
    while j < order.len()
        invariant
            j <= order.len(),
            keys@ == start_lines(items@),
            sorting::is_sorting(keys@, order@),
            order@ == sorting::sorting(keys@),
            all == sorting::sorted_by(start_lines(items@), items@),
            out@ == all.take(j as int),
        decreases order.len() - j,
    {
        assert(order@[j as int] < keys@.len());
        let item = &items[order[j]];
        out.push(
            FileOutlineItem {
                chunk_id: item.chunk_id,
                kind: item.kind.clone(),
                signature: copy_opt(&item.signature),
                start_line: item.start_line,
                end_line: item.end_line,
            },
        );
        j += 1;
    }
    proof {
        assert(all.take(all.len() as int) =~= all);
    }
    Reply::Items(out)
}

/// Every definition that is reported is the chunk of one of the candidates, of a
/// kind that defines something and of the kind that is asked for.
pub proof fn law_definitions_define(
    candidates: Seq<Candidate>,
    kind: Option<Seq<char>>,
    ctx: MultiStoreContext,
    i: int,
)
    requires
        0 <= i < definitions_of(candidates, kind, ctx).len(),
    ensures
        is_definition_kind(definitions_of(candidates, kind, ctx)[i].kind),
        kind is Some ==> definitions_of(candidates, kind, ctx)[i].kind == kind->0,
        exists|k: int|
            0 <= k < candidates.len() && definition_of(#[trigger] candidates[k], kind, ctx) == Some(
                definitions_of(candidates, kind, ctx)[i],
            ),
    decreases candidates.len(),
{
    let front = candidates.drop_last();
    let before = definitions_of(front, kind, ctx);
    if i < before.len() {
        law_definitions_define(front, kind, ctx, i);
        let k = choose|k: int|
            0 <= k < front.len() && definition_of(#[trigger] front[k], kind, ctx) == Some(
                before[i],
            );
        assert(candidates[k] == front[k]);
    } else {
        assert(definition_of(candidates[candidates.len() - 1], kind, ctx) == Some(
            definitions_of(candidates, kind, ctx)[i],
        ));
    }
}

/// Functions, classes, methods, structs, traits, enums, type aliases and
/// interfaces are definitions, and nothing else is.
pub proof fn law_definition_kinds(kind: Seq<char>)
    ensures
        is_definition_kind("Function"@),
        is_definition_kind("Class"@),
        is_definition_kind("Method"@),
        is_definition_kind("Struct"@),
        is_definition_kind("Trait"@),
        is_definition_kind("Enum"@),
        is_definition_kind("TypeAlias"@),
        is_definition_kind("Interface"@),
        is_definition_kind(kind) ==> kind == "Function"@ || kind == "Class"@ || kind == "Method"@
            || kind == "Struct"@ || kind == "Trait"@ || kind == "Enum"@ || kind == "TypeAlias"@
            || kind == "Interface"@,
{
}

/// A symbol is a word of a signature where nothing, a space or a tab stands
/// before it, and nothing, `(`, `<`, `:`, a space or a tab behind it.
pub proof fn law_word_of_a_signature(before: Seq<char>, symbol: Seq<char>, behind: Seq<char>)
    requires
        before.len() == 0 || before.last() == ' ' || before.last() == '\t',
        behind.len() == 0 || behind[0] == '(' || behind[0] == '<' || behind[0] == ':' || behind[0]
            == ' ' || behind[0] == '\t',
    ensures
        has_word(before + symbol + behind, symbol),
{
    let sig = before + symbol + behind;
    let i = before.len() as int;
    assert(sig.subrange(i, i + symbol.len()) =~= symbol);
    if i > 0 {
        assert(sig[i - 1] == before.last());
    }
    if behind.len() > 0 {
        assert(sig[i + symbol.len()] == behind[0]);
    }
    assert(word_at(sig, symbol, i));
}

/// A word of a signature stands in it with such neighbours.
pub proof fn law_words_have_neighbours(sig: Seq<char>, symbol: Seq<char>) -> (i: int)
    requires
        has_word(sig, symbol),
    ensures
        0 <= i <= sig.len() - symbol.len(),
        sig == sig.take(i) + symbol + sig.skip(i + symbol.len()),
        i == 0 || sig[i - 1] == ' ' || sig[i - 1] == '\t',
        i + symbol.len() == sig.len() || sig[i + symbol.len()] == '(' || sig[i + symbol.len()] == '<'
            || sig[i + symbol.len()] == ':' || sig[i + symbol.len()] == ' ' || sig[i
            + symbol.len()] == '\t',
{
    let i = choose|i: int| word_at(sig, symbol, i);
    assert forall|k: int| i <= k < i + symbol.len() implies sig[k] == symbol[k - i] by {
        assert(sig.subrange(i, i + symbol.len())[k - i] == sig[k]);
    }
    assert(sig =~= sig.take(i) + symbol + sig.skip(i + symbol.len()));
    i
}

/// A chunk of a definition with a signature defines each symbol that is a word of
/// the signature. It defines no symbol that does not stand in the signature, and
/// a chunk of another kind, or without a signature, defines nothing.
pub proof fn law_what_a_chunk_defines(kind: Seq<char>, sig: Option<Seq<char>>, symbol: Seq<char>)
    ensures
        is_definition_kind(kind) && sig is Some && sig->0.len() > 0 && has_word(sig->0, symbol)
            ==> defines(kind, sig, symbol),
        defines(kind, sig, symbol) ==> is_definition_kind(kind) && sig is Some && text::has_text(
            sig->0,
            symbol,
        ),
{
    if defines(kind, sig, symbol) {
        let s = sig->0;
        if has_word(s, symbol) {
            let i = choose|i: int| word_at(s, symbol, i);
            assert(text::occurs_at(s, symbol, i));
        } else {
            let keywords = seq![
                "fn "@,
                "def "@,
                "class "@,
                "struct "@,
                "enum "@,
                "trait "@,
                "type "@,
                "interface "@,
                "impl "@,
                "pub fn "@,
                "pub async fn "@,
                "pub struct "@,
                "pub enum "@,
                "pub trait "@,
                "pub type "@,
                "async fn "@,
                "const "@,
                "static "@,
            ];
            assert(keywords[0] == "fn "@ && keywords[1] == "def "@ && keywords[2] == "class "@
                && keywords[3] == "struct "@ && keywords[4] == "enum "@ && keywords[5] == "trait "@
                && keywords[6] == "type "@ && keywords[7] == "interface "@ && keywords[8]
                == "impl "@ && keywords[9] == "pub fn "@ && keywords[10] == "pub async fn "@
                && keywords[11] == "pub struct "@ && keywords[12] == "pub enum "@ && keywords[13]
                == "pub trait "@ && keywords[14] == "pub type "@ && keywords[15] == "async fn "@
                && keywords[16] == "const "@ && keywords[17] == "static "@);
            assert(exists|k: int|
                0 <= k < keywords.len() && declares(s, #[trigger] keywords[k], symbol));
            let k = choose|k: int|
                0 <= k < keywords.len() && declares(s, #[trigger] keywords[k], symbol);
            assert(text::occurs_at(s, symbol, keywords[k].len() as int));
        }
    }
}

/// A name that only goes on from the symbol is another name: a signature in which
/// every place of the symbol is followed by a letter, a digit or `_` does not
/// define it.
pub proof fn law_longer_names_are_others(kind: Seq<char>, sig: Seq<char>, symbol: Seq<char>)
    requires
        forall|i: int|
            #[trigger] text::occurs_at(sig, symbol, i) ==> i + symbol.len() < sig.len() && ({
                let c = sig[i + symbol.len()];
                'a' <= c <= 'z' || 'A' <= c <= 'Z' || '0' <= c <= '9' || c == '_'
            }),
    ensures
        !defines(kind, Some(sig), symbol),
{
    if defines(kind, Some(sig), symbol) {
        if has_word(sig, symbol) {
            let i = choose|i: int| word_at(sig, symbol, i);
            assert(text::occurs_at(sig, symbol, i));
        }
        assert(!declares_any(sig, symbol));
    }
}

/// The usages of a symbol are the candidates whose chunk was found and does not
/// define the symbol, whatever their kind: each once and in their order, with
/// chunk, line, kind, signature and score. The first of them are reported, up to
/// the limit.
pub proof fn law_usages_select(
    candidates: Seq<Candidate>,
    symbol: Seq<char>,
    limit: nat,
    ctx: MultiStoreContext,
) -> (places: Seq<int>)
    ensures
        sorting::selects(
            places,
            candidates.len() as int,
            |i: int|
                candidates[i].found() is Some && !defines(
                    candidates[i].found()->0.kind@,
                    types::opt_text(candidates[i].found()->0.signature),
                    symbol,
                ),
        ),
        usages_of(candidates, symbol, ctx).len() == places.len(),
        usages_found(candidates, symbol, limit as int, ctx).len() == (if places.len() < limit {
            places.len() as int
        } else {
            limit as int
        }),
        forall|k: int|
            0 <= k < places.len() ==> {
                let u = #[trigger] usages_of(candidates, symbol, ctx)[k];
                let chunk = candidates[places[k]].found()->0;
                &&& u.chunk_id == candidates[places[k]].chunk_id
                &&& u.score == candidates[places[k]].score
                &&& u.line == chunk.start_line
                &&& u.kind == chunk.kind@
                &&& u.signature == types::opt_text(chunk.signature)
                &&& u.path == ctx.shown_path(chunk.path@)
            },
        forall|k: int|
            0 <= k < usages_found(candidates, symbol, limit as int, ctx).len()
                ==> #[trigger] usages_found(candidates, symbol, limit as int, ctx)[k] == usages_of(
                candidates,
                symbol,
                ctx,
            )[k],
    decreases candidates.len(),
{
    if candidates.len() == 0 {
        Seq::empty()
    } else {
        let front = candidates.drop_last();
        let before = law_usages_select(front, symbol, limit, ctx);
        let first = usages_of(front, symbol, ctx);
        let all = usages_of(candidates, symbol, ctx);
        let places = sorting::lemma_selects_step(
            before,
            candidates.len() - 1,
            |i: int|
                front[i].found() is Some && !defines(
                    front[i].found()->0.kind@,
                    types::opt_text(front[i].found()->0.signature),
                    symbol,
                ),
            |i: int|
                candidates[i].found() is Some && !defines(
                    candidates[i].found()->0.kind@,
                    types::opt_text(candidates[i].found()->0.signature),
                    symbol,
                ),
        );
        assert forall|k: int| 0 <= k < places.len() implies ({
            let u = #[trigger] all[k];
            let chunk = candidates[places[k]].found()->0;
            &&& u.chunk_id == candidates[places[k]].chunk_id
            &&& u.score == candidates[places[k]].score
            &&& u.line == chunk.start_line
            &&& u.kind == chunk.kind@
            &&& u.signature == types::opt_text(chunk.signature)
            &&& u.path == ctx.shown_path(chunk.path@)
        }) by {
            if k < before.len() {
                assert(all[k] == first[k]);
                assert(front[before[k]] == candidates[places[k]]);
            }
        }
        places
    }
}

/// The definitions are the candidates whose chunk was found, is of a kind that
/// defines something, and of the kind that is asked for, if one is: each once and
/// in their order, with chunk, line, kind, signature and score.
pub proof fn law_definitions_select(
    candidates: Seq<Candidate>,
    kind: Option<Seq<char>>,
    ctx: MultiStoreContext,
) -> (places: Seq<int>)
    ensures
        sorting::selects(
            places,
            candidates.len() as int,
            |i: int|
                candidates[i].found() is Some && is_definition_kind(
                    candidates[i].found()->0.kind@,
                ) && (kind is None || candidates[i].found()->0.kind@ == kind->0),
        ),
        definitions_of(candidates, kind, ctx).len() == places.len(),
        forall|k: int|
            0 <= k < places.len() ==> {
                let d = #[trigger] definitions_of(candidates, kind, ctx)[k];
                let chunk = candidates[places[k]].found()->0;
                &&& d.chunk_id == candidates[places[k]].chunk_id
                &&& d.score == candidates[places[k]].score
                &&& d.line == chunk.start_line
                &&& d.kind == chunk.kind@
                &&& d.signature == types::opt_text(chunk.signature)
                &&& d.path == ctx.shown_path(chunk.path@)
            },
    decreases candidates.len(),
{
    if candidates.len() == 0 {
        Seq::empty()
    } else {
        let front = candidates.drop_last();
        let before = law_definitions_select(front, kind, ctx);
        let first = definitions_of(front, kind, ctx);
        let all = definitions_of(candidates, kind, ctx);
        let places = sorting::lemma_selects_step(
            before,
            candidates.len() - 1,
            |i: int|
                front[i].found() is Some && is_definition_kind(front[i].found()->0.kind@) && (kind
                    is None || front[i].found()->0.kind@ == kind->0),
            |i: int|
                candidates[i].found() is Some && is_definition_kind(
                    candidates[i].found()->0.kind@,
                ) && (kind is None || candidates[i].found()->0.kind@ == kind->0),
        );
        assert forall|k: int| 0 <= k < places.len() implies ({
            let d = #[trigger] all[k];
            let chunk = candidates[places[k]].found()->0;
            &&& d.chunk_id == candidates[places[k]].chunk_id
            &&& d.score == candidates[places[k]].score
            &&& d.line == chunk.start_line
            &&& d.kind == chunk.kind@
            &&& d.signature == types::opt_text(chunk.signature)
            &&& d.path == ctx.shown_path(chunk.path@)
        }) by {
            if k < before.len() {
                assert(all[k] == first[k]);
                assert(front[before[k]] == candidates[places[k]]);
            }
        }
        places
    }
}

/// An outline holds every symbol of the file, each once, from the first line
/// down; symbols on one line keep their order.
pub proof fn law_outline_rises(items: Seq<FileOutlineItem>) -> (order: Seq<usize>)
    requires
        items.len() <= usize::MAX,
    ensures
        order.len() == items.len(),
        order.no_duplicates(),
        ({
            let all = sorting::sorted_by(start_lines(items), items);
            &&& all.len() == items.len()
            &&& forall|a: int|
                0 <= a < order.len() ==> 0 <= #[trigger] order[a] < items.len() && all[a]
                    == items[order[a] as int]
            &&& forall|a: int, b: int|
                0 <= a < b < all.len() ==> {
                    let x = #[trigger] all[a];
                    let y = #[trigger] all[b];
                    x.start_line < y.start_line || x.start_line == y.start_line && order[a] < order[b]
                }
        }),
{
    let keys = start_lines(items);
    sorting::law_sorting(keys);
    let order = sorting::sorting(keys);
    let all = sorting::sorted_by(keys, items);
    assert forall|a: int| 0 <= a < order.len() implies 0 <= #[trigger] order[a] < items.len() && all[a]
        == items[order[a] as int] by {
        assert(0 <= order[a] < keys.len());
    }
    assert forall|a: int, b: int| 0 <= a < b < all.len() implies ({
        let x = #[trigger] all[a];
        let y = #[trigger] all[b];
        x.start_line < y.start_line || x.start_line == y.start_line && order[a] < order[b]
    }) by {
        let i = order[a] as int;
        let j = order[b] as int;
        assert(0 <= i < keys.len() && 0 <= j < keys.len());
        assert(sorting::SortKey::upto(keys[i], keys[j]));
        assert(keys[i] == items[i].start_line && keys[j] == items[j].start_line);
    }
    order
}

/// What an item of a reply says is what it holds.
pub proof fn law_items_say_what_they_hold(items: Seq<ReferenceItem>, i: int)
    requires
        0 <= i < items.len(),
    ensures
        references_of(items).len() == items.len(),
        references_of(items)[i].chunk_id == items[i].chunk_id,
        references_of(items)[i].path == items[i].path@,
        references_of(items)[i].line == items[i].line,
        references_of(items)[i].kind == items[i].kind@,
        references_of(items)[i].signature == types::opt_text(items[i].signature),
        references_of(items)[i].score == items[i].score,
{
}

proof fn lemma_declared_word(sig: Seq<char>, keyword: Seq<char>, symbol: Seq<char>)
    requires
        keyword.len() > 0,
        keyword.last() == ' ',
    ensures
        declares(sig, keyword, symbol) ==> has_word(sig, symbol),
{
    if declares(sig, keyword, symbol) {
        let n = keyword.len() as int;
        assert(sig.subrange(0, n)[n - 1] == sig[n - 1]);
        assert(word_at(sig, symbol, n));
    }
}

/// A chunk of a definition defines exactly the words of its signature: behind a
/// keyword too the symbol has to stand as a word of its own.
pub proof fn law_defined_symbols_are_words(kind: Seq<char>, sig: Seq<char>, symbol: Seq<char>)
    requires
        is_definition_kind(kind),
        sig.len() > 0,
    ensures
        defines(kind, Some(sig), symbol) <==> has_word(sig, symbol),
{
    reveal_strlit("fn ");
    reveal_strlit("def ");
    reveal_strlit("class ");
    reveal_strlit("struct ");
    reveal_strlit("enum ");
    reveal_strlit("trait ");
    reveal_strlit("type ");
    reveal_strlit("interface ");
    reveal_strlit("impl ");
    reveal_strlit("pub fn ");
    reveal_strlit("pub async fn ");
    reveal_strlit("pub struct ");
    reveal_strlit("pub enum ");
    reveal_strlit("pub trait ");
    reveal_strlit("pub type ");
    reveal_strlit("async fn ");
    reveal_strlit("const ");
    reveal_strlit("static ");
    lemma_declared_word(sig, "fn "@, symbol);
    lemma_declared_word(sig, "def "@, symbol);
    lemma_declared_word(sig, "class "@, symbol);
    lemma_declared_word(sig, "struct "@, symbol);
    lemma_declared_word(sig, "enum "@, symbol);
    lemma_declared_word(sig, "trait "@, symbol);
    lemma_declared_word(sig, "type "@, symbol);
    lemma_declared_word(sig, "interface "@, symbol);
    lemma_declared_word(sig, "impl "@, symbol);
    lemma_declared_word(sig, "pub fn "@, symbol);
    lemma_declared_word(sig, "pub async fn "@, symbol);
    lemma_declared_word(sig, "pub struct "@, symbol);
    lemma_declared_word(sig, "pub enum "@, symbol);
    lemma_declared_word(sig, "pub trait "@, symbol);
    lemma_declared_word(sig, "pub type "@, symbol);
    lemma_declared_word(sig, "async fn "@, symbol);
    lemma_declared_word(sig, "const "@, symbol);
    lemma_declared_word(sig, "static "@, symbol);
}

/// The operation itself: below the limit every candidate whose chunk was found and
/// does not define the symbol is reported, whatever its kind, with its id, line,
/// kind and path.
pub proof fn law_every_usage_is_reported(
    candidates: &Vec<Candidate>,
    symbol: &str,
    limit: usize,
    ctx: &MultiStoreContext,
    r: Reply<ReferenceItem>,
    i: int,
) -> (k: int)
    requires
        call_ensures(find_usages, (candidates, symbol, limit, ctx), r),
        0 <= i < candidates@.len(),
        candidates@.len() <= limit,
        candidates@[i].found() is Some,
        !defines(
            candidates@[i].found()->0.kind@,
            types::opt_text(candidates@[i].found()->0.signature),
            symbol@,
        ),
    ensures
        r matches Reply::Items(items) && 0 <= k < items@.len() && items@[k].chunk_id
            == candidates@[i].chunk_id && items@[k].line == candidates@[i].found()->0.start_line
            && items@[k].kind@ == candidates@[i].found()->0.kind@ && items@[k].path@
            == ctx.shown_path(candidates@[i].found()->0.path@),
{
    let places = law_usages_select(candidates@, symbol@, limit as nat, *ctx);
    let wanted = |i: int|
        candidates@[i].found() is Some && !defines(
            candidates@[i].found()->0.kind@,
            types::opt_text(candidates@[i].found()->0.signature),
            symbol@,
        );
    assert(wanted(i));
    assert(places.contains(i));
    let k = choose|k: int| 0 <= k < places.len() && places[k] == i;
    let all = usages_of(candidates@, symbol@, *ctx);
    let found = usages_found(candidates@, symbol@, limit as int, *ctx);
    sorting::lemma_selected_are_few(places, candidates@.len() as int, wanted);
    assert(found[k] == all[k]);
    assert(all[k].chunk_id == candidates@[places[k]].chunk_id);
    let items = r->Items_0@;
    assert(references_of(items)[k] == found[k]);
    k
}

/// Without candidates, and without a usage among them, the answer says so.
pub proof fn law_no_usages(
    candidates: &Vec<Candidate>,
    symbol: &str,
    limit: usize,
    ctx: &MultiStoreContext,
    r: Reply<ReferenceItem>,
)
    requires
        call_ensures(find_usages, (candidates, symbol, limit, ctx), r),
        forall|i: int|
            0 <= i < candidates@.len() ==> (#[trigger] candidates@[i]).found() is None || defines(
                candidates@[i].found()->0.kind@,
                types::opt_text(candidates@[i].found()->0.signature),
                symbol@,
            ),
    ensures
        r is Message,
{
    let places = law_usages_select(candidates@, symbol@, limit as nat, *ctx);
    if places.len() > 0 {
        let i = places[0];
        assert(candidates@[i].found() is None || defines(
            candidates@[i].found()->0.kind@,
            types::opt_text(candidates@[i].found()->0.signature),
            symbol@,
        ));
        assert(false);
    }
}

/// Definitions and usages are asked for within the limit, 20 without one, and
/// three or two times as many candidates are read.
pub proof fn law_limits_of_symbols(limit: Option<usize>, d: (usize, usize), u: (usize, usize))
    requires
        limit matches Some(l) ==> l * 3 <= usize::MAX,
        call_ensures(definition_limits, (limit,), d),
        call_ensures(usage_limits, (limit,), u),
    ensures
        limit is None ==> d == (20usize, 60usize) && u == (20usize, 40usize),
        limit is Some ==> d.0 == limit->0 && d.1 == 3 * limit->0 && u.0 == limit->0 && u.1 == 2
            * limit->0,
{
}

/// The operation itself: below the limit every candidate whose chunk was found, is
/// a definition and has the kind that is asked for is reported.
pub proof fn law_every_definition_is_reported(
    candidates: &Vec<Candidate>,
    symbol: &str,
    kind: &Option<String>,
    limit: usize,
    ctx: &MultiStoreContext,
    r: Reply<ReferenceItem>,
    i: int,
) -> (k: int)
    requires
        call_ensures(find_definition, (candidates, symbol, kind, limit, ctx), r),
        0 <= i < candidates@.len(),
        candidates@.len() <= limit,
        candidates@[i].found() is Some,
        is_definition_kind(candidates@[i].found()->0.kind@),
        kind is None || candidates@[i].found()->0.kind@ == kind->0@,
    ensures
        r matches Reply::Items(items) && 0 <= k < items@.len() && items@[k].chunk_id
            == candidates@[i].chunk_id && items@[k].line == candidates@[i].found()->0.start_line
            && items@[k].kind@ == candidates@[i].found()->0.kind@ && items@[k].path@
            == ctx.shown_path(candidates@[i].found()->0.path@),
{
    let wish = types::opt_text(*kind);
    let places = law_definitions_select(candidates@, wish, *ctx);
    let wanted = |i: int|
        candidates@[i].found() is Some && is_definition_kind(candidates@[i].found()->0.kind@) && (
        wish is None || candidates@[i].found()->0.kind@ == wish->0);
    assert(wanted(i));
    assert(places.contains(i));
    let k = choose|k: int| 0 <= k < places.len() && places[k] == i;
    let all = definitions_of(candidates@, wish, *ctx);
    sorting::lemma_selected_are_few(places, candidates@.len() as int, wanted);
    let found = types::at_most(all, limit as int);
    assert(found =~= all);
    assert(all[k].chunk_id == candidates@[places[k]].chunk_id);
    let items = r->Items_0@;
    assert(references_of(items)[k] == found[k]);
    k
}

/// An outline of a file has all its items, and a file without any says so.
pub proof fn law_outline_is_complete(items: &Vec<FileOutlineItem>, r: Reply<FileOutlineItem>, i: int)
    requires
        call_ensures(file_outline, (items,), r),
        items@.len() <= usize::MAX,
    ensures
        items@.len() == 0 <==> r is Message,
        0 <= i < items@.len() ==> r->Items_0@.contains(items@[i]),
        items@.len() > 0 ==> r->Items_0@.len() == items@.len(),
{
    if 0 <= i < items@.len() {
        let keys = start_lines(items@);
        let order = sorting::law_sorted_items(keys, items@);
        assert(order.contains(i as usize));
        let a = choose|a: int| 0 <= a < order.len() && order[a] == i as usize;
        assert(r->Items_0@[a] == items@[i]);
    } else if items@.len() > 0 {
        let order = sorting::law_sorted_items(start_lines(items@), items@);
    }
}

} // verus!

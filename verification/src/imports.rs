//! Imports: the statements of a file, and the files that depend on a module.
use vstd::prelude::*;
use vstd::slice::slice_subrange;

use crate::chars;
use crate::chars::to_lowercase;
use crate::literal;
use crate::paths;
use crate::paths::normalize_path_str;
use crate::routing::MultiStoreContext;
use crate::sorting;
use crate::sorting::sort_places;
use crate::text;
use crate::text::{
    chars_of, concat, contains, contains_char, lines, owned, same, split, starts_with,
    str_contains, str_eq, string_of, strip_end, trim,
};
use crate::types;
use crate::types::{Candidate, ChunkMeta, Reply};

verus! {

// ---------------------------------------------------------------------------
// Import statements
// ---------------------------------------------------------------------------

/// A chunk of this kind holds imports.
pub open spec fn holds_imports(kind: Seq<char>) -> bool {
    kind == "Import"@ || kind == "Use"@ || kind == "Require"@ || kind == "Include"@ || kind
        == "Imports"@
}

/// Whether a chunk of this kind holds imports.
pub fn is_import_kind(kind: &str) -> (r: bool)
    ensures
        r == holds_imports(kind@),
{
    str_eq(kind, "Import") || str_eq(kind, "Use") || str_eq(kind, "Require") || str_eq(
        kind,
        "Include",
    ) || str_eq(kind, "Imports")
}

/// One import statement.
#[derive(Debug)]
pub struct ImportItem {
    pub imported: String,
    pub line: usize,
    pub kind: String,
}

/// An import statement, without its containers.
#[verifier::ext_equal]
pub struct ImportLine {
    pub imported: Seq<char>,
    pub line: int,
    pub kind: Seq<char>,
}

/// What an item says.
pub open spec fn import_of(item: ImportItem) -> ImportLine {
    ImportLine { imported: item.imported@, line: item.line as int, kind: item.kind@ }
}

/// What the items say.
pub open spec fn imports_of(items: Seq<ImportItem>) -> Seq<ImportLine> {
    Seq::new(items.len(), |i: int| import_of(items[i]))
}

/// A text without white space at its ends and without the `;` behind it.
pub open spec fn statement(s: Seq<char>) -> Seq<char> {
    text::stripped_end(text::trimmed(s), ';')
}

/// `s` without the `p` at its front, as often as it stands there.
pub open spec fn without_prefix(s: Seq<char>, p: Seq<char>) -> Seq<char>
    decreases s.len(),
{
    if p.len() > 0 && text::begins_with(s, p) {
        without_prefix(s.skip(p.len() as int), p)
    } else {
        s
    }
}

/// The kind of the import on a line, and what it imports.
pub open spec fn import_on(line: Seq<char>) -> Option<(Seq<char>, Seq<char>)> {
    let t = text::trimmed(line);
    if text::begins_with(t, "use "@) {
        Some(("use"@, statement(t.skip("use "@.len() as int))))
    } else if text::begins_with(t, "using "@) {
        let rest = t.skip("using "@.len() as int);
        if text::begins_with(rest, "("@) || text::begins_with(rest, "var "@) {
            None
        } else {
            Some(("using"@, statement(rest)))
        }
    } else if text::begins_with(t, "import "@) {
        Some(("import"@, statement(t.skip("import "@.len() as int))))
    } else if text::begins_with(t, "from "@) {
        Some(("import"@, statement(t.skip("from "@.len() as int))))
    } else if text::begins_with(t, "#include"@) {
        Some(("include"@, statement(without_prefix(t, "#include"@))))
    } else if text::has_text(t, "require("@) {
        Some(("require"@, t))
    } else {
        None
    }
}

/// The imports of the lines, the first of which has number `start`.
pub open spec fn imports_in(all: Seq<Seq<char>>, start: int) -> Seq<ImportLine>
    decreases all.len(),
{
    if all.len() == 0 {
        Seq::empty()
    } else {
        let before = imports_in(all.drop_last(), start);
        match import_on(all.last()) {
            Some((kind, imported)) => before.push(
                ImportLine { imported, line: start + all.len() - 1, kind },
            ),
            None => before,
        }
    }
}

/// The imports of a chunk.
pub open spec fn chunk_imports(content: Seq<char>, start: int) -> Seq<ImportLine> {
    imports_in(text::text_lines(content), start)
}

fn behind<'a>(s: &'a [char], p: &str) -> (r: Option<&'a [char]>)
    ensures
        match r {
            Some(rest) => text::begins_with(s@, p@) && rest@ == s@.skip(p@.len() as int),
            None => !text::begins_with(s@, p@),
        },
{
    let v = chars_of(p);
    if starts_with(s, v.as_slice()) {
        proof {
            assert(s@.subrange(p@.len() as int, s@.len() as int) =~= s@.skip(p@.len() as int));
        }
        Some(slice_subrange(s, v.len(), s.len()))
    } else {
        None
    }
}

fn statement_of(s: &[char]) -> (r: String)
    ensures
        r@ == statement(s@),
{
    string_of(strip_end(trim(s), ';'))
}

fn strip_prefixes<'a>(s: &'a [char], p: &str) -> (r: &'a [char])
    requires
        p@.len() > 0,
    ensures
        r@ == without_prefix(s@, p@),
    decreases s@.len(),
{
    match behind(s, p) {
        Some(rest) => strip_prefixes(rest, p),
        None => s,
    }
}

fn parse_line(line: &[char]) -> (r: Option<(String, String)>)
    ensures
        match r {
            Some((k, s)) => import_on(line@) == Some((k@, s@)),
            None => import_on(line@) is None,
        },
{
    let t = trim(line);
    match behind(t, "use ") {
        Some(rest) => {
            return Some((owned("use"), statement_of(rest)));
        },
        None => {},
    }
    match behind(t, "using ") {
        Some(rest) => {
            return if behind(rest, "(").is_some() || behind(rest, "var ").is_some() {
                None
            } else {
                Some((owned("using"), statement_of(rest)))
            };
        },
        None => {},
    }
    match behind(t, "import ") {
        Some(rest) => {
            return Some((owned("import"), statement_of(rest)));
        },
        None => {},
    }
    match behind(t, "from ") {
        Some(rest) => {
            return Some((owned("import"), statement_of(rest)));
        },
        None => {},
    }
    if behind(t, "#include").is_some() {
        proof {
            reveal_strlit("#include");
        }
        return Some((owned("include"), statement_of(strip_prefixes(t, "#include"))));
    }
    if contains(t, chars_of("require(").as_slice()) {
        return Some((owned("require"), string_of(t)));
    }
    None
}

/// The import statements of a chunk, a line each: `use`, `using`, `import`,
/// `from`, `#include` and `require(`.
///
/// Of an import that goes over several lines only the first line counts.
pub fn parse_import_lines(content: &str, start_line: usize) -> (r: Vec<ImportItem>)
    requires
        start_line + text::text_lines(content@).len() <= usize::MAX,
    ensures
        imports_of(r@) == chunk_imports(content@, start_line as int),
{
    let all = lines(chars_of(content).as_slice());
    let ghost ls = text::text_lines(content@);
    proof {
        assert(ls.len() == all@.len());
    }
    let mut out: Vec<ImportItem> = Vec::new();
    let mut i: usize = 0;
    proof {
        assert(imports_of(out@) =~= imports_in(ls.take(0), start_line as int));
    }
    while i < all.len()
        invariant
            i <= all.len(),
            text::views(all@) == ls,
            start_line + all.len() <= usize::MAX,
            imports_of(out@) == imports_in(ls.take(i as int), start_line as int),
        decreases all.len() - i,
    {
        let ghost before = imports_of(out@);
        proof {
            assert(ls.take(i + 1).drop_last() =~= ls.take(i as int));
            assert(ls.take(i + 1).last() == all@[i as int]@);
        }
        match parse_line(all[i].as_slice()) {
            Some((kind, imported)) => {
                let ghost new = ImportLine {
                    imported: imported@,
                    line: start_line + i,
                    kind: kind@,
                };
                out.push(ImportItem { imported, line: start_line + i, kind });
                proof {
                    assert(imports_of(out@) =~= before.push(new));
                }
            },
            None => {},
        }
        i += 1;
    }
    proof {
        assert(ls.take(ls.len() as int) =~= ls);
    }
    out
}

// ---------------------------------------------------------------------------
// Words that imports are found by
// ---------------------------------------------------------------------------

/// How many hits each of the words brings.
pub const IMPORT_WORD_LIMIT: usize = 40;

/// The words by which imports are looked for, where no chunk of a file is known
/// to hold imports.
pub open spec fn import_words() -> Seq<Seq<char>> {
    seq!["import"@, "use"@, "using"@, "from"@, "require"@, "include"@]
}

/// The words by which imports are looked for, where no chunk of a file is known
/// to hold imports.
pub fn import_search_words() -> (r: Vec<String>)
    ensures
        text::views(r@) == import_words(),
{
    let r = vec![
        owned("import"),
        owned("use"),
        owned("using"),
        owned("from"),
        owned("require"),
        owned("include"),
    ];
    assert(text::views(r@) =~= import_words());
    r
}

// ---------------------------------------------------------------------------
// The imports of a file
// ---------------------------------------------------------------------------

/// A chunk of a file as the index of a store lists it, with what the store
/// holds of it.
#[derive(Debug)]
pub struct ImportRow {
    pub id: u32,
    pub kind: String,
    pub chunk: Option<ChunkMeta>,
}

/// No row before row `k` holds imports under the same id.
pub open spec fn is_fresh(rows: Seq<ImportRow>, k: int) -> bool {
    forall|j: int| 0 <= j < k && rows[j].id == rows[k].id ==> !holds_imports(
        (#[trigger] rows[j]).kind@,
    )
}

/// The imports of the rows. With several stores an id counts only once.
pub open spec fn row_imports(rows: Seq<ImportRow>, is_multi: bool) -> Seq<ImportLine>
    decreases rows.len(),
{
    if rows.len() == 0 {
        Seq::empty()
    } else {
        let before = row_imports(rows.drop_last(), is_multi);
        let row = rows.last();
        if holds_imports(row.kind@) && (!is_multi || is_fresh(rows, rows.len() - 1))
            && row.chunk is Some {
            before + chunk_imports(row.chunk->0.content@, row.chunk->0.start_line as int)
        } else {
            before
        }
    }
}

/// The lines of all chunks can be numbered.
pub open spec fn rows_wf(rows: Seq<ImportRow>) -> bool {
    forall|i: int|
        0 <= i < rows.len() && (#[trigger] rows[i]).chunk is Some ==> rows[i].chunk->0.wf()
}

fn fresh(rows: &Vec<ImportRow>, k: usize) -> (r: bool)
    requires
        k < rows.len(),
    ensures
        r == is_fresh(rows@, k as int),
{
    let mut j: usize = 0;
    while j < k
        invariant
            j <= k < rows.len(),
            forall|m: int|
                0 <= m < j && rows@[m].id == rows@[k as int].id ==> !holds_imports(
                    (#[trigger] rows@[m]).kind@,
                ),
        decreases k - j,
    {
        if rows[j].id == rows[k].id && is_import_kind(rows[j].kind.as_str()) {
            assert(holds_imports(rows@[j as int].kind@));
            return false;
        }
        j += 1;
    }
    true
}

fn append_imports(out: &mut Vec<ImportItem>, more: Vec<ImportItem>)
    ensures
        imports_of(final(out)@) == imports_of(old(out)@) + imports_of(more@),
{
    let mut more = more;
    let ghost added = more@;
    out.append(&mut more);
    proof {
        assert(imports_of(out@) =~= imports_of(old(out)@) + imports_of(added));
    }
}

/// The imports of a file, from the chunks that the stores list for it. With
/// several stores an id counts only once.
pub fn imports_from_rows(rows: &Vec<ImportRow>, is_multi: bool) -> (r: Vec<ImportItem>)
    requires
        rows_wf(rows@),
    ensures
        imports_of(r@) == row_imports(rows@, is_multi),
{
    let mut out: Vec<ImportItem> = Vec::new();
    let mut i: usize = 0;
    proof {
        assert(imports_of(out@) =~= row_imports(rows@.take(0), is_multi));
    }
    while i < rows.len()
        invariant
            i <= rows.len(),
            rows_wf(rows@),
            imports_of(out@) == row_imports(rows@.take(i as int), is_multi),
        decreases rows.len() - i,
    {
        let row = &rows[i];
        proof {
            let t = rows@.take(i + 1);
            assert(t.drop_last() =~= rows@.take(i as int));
            assert(t.last() == *row);
            assert(is_fresh(t, i as int) == is_fresh(rows@, i as int)) by {
                if is_fresh(t, i as int) {
                    assert forall|j: int|
                        0 <= j < i && rows@[j].id == rows@[i as int].id implies !holds_imports(
                        (#[trigger] rows@[j]).kind@,
                    ) by {
                        assert(t[j] == rows@[j]);
                    }
                }
                if is_fresh(rows@, i as int) {
                    assert forall|j: int|
                        0 <= j < i && t[j].id == t[i as int].id implies !holds_imports(
                        (#[trigger] t[j]).kind@,
                    ) by {
                        assert(t[j] == rows@[j]);
                    }
                }
            }
        }
        if is_import_kind(row.kind.as_str()) && (!is_multi || fresh(rows, i)) {
            match &row.chunk {
                Some(chunk) => {
                    assert(rows@[i as int].chunk is Some);
                    let more = parse_import_lines(chunk.content.as_str(), chunk.start_line);
                    append_imports(&mut out, more);
                },
                None => {},
            }
        }
        i += 1;
    }
    proof {
        assert(rows@.take(rows@.len() as int) =~= rows@);
    }
    out
}

/// The imports of those candidates whose chunk is of the file.
pub open spec fn candidate_imports(candidates: Seq<Candidate>, file: Seq<char>) -> Seq<ImportLine>
    decreases candidates.len(),
{
    if candidates.len() == 0 {
        Seq::empty()
    } else {
        let before = candidate_imports(candidates.drop_last(), file);
        match candidates.last().found() {
            Some(chunk) => if paths::normal(chunk.path@) == file {
                before + chunk_imports(chunk.content@, chunk.start_line as int)
            } else {
                before
            },
            None => before,
        }
    }
}

/// The imports of a file, from the hits of a search for the keywords of
/// imports. The path of the file is in normal form.
pub fn imports_from_candidates(candidates: &Vec<Candidate>, file: &str) -> (r: Vec<ImportItem>)
    requires
        types::candidates_wf(candidates@),
    ensures
        imports_of(r@) == candidate_imports(candidates@, file@),
{
    let mut out: Vec<ImportItem> = Vec::new();
    let mut i: usize = 0;
    proof {
        assert(imports_of(out@) =~= candidate_imports(candidates@.take(0), file@));
    }
    while i < candidates.len()
        invariant
            i <= candidates.len(),
            types::candidates_wf(candidates@),
            imports_of(out@) == candidate_imports(candidates@.take(i as int), file@),
        decreases candidates.len() - i,
    {
        let c = &candidates[i];
        proof {
            assert(candidates@.take(i + 1).drop_last() =~= candidates@.take(i as int));
            assert(candidates@.take(i + 1).last() == *c);
            assert(c.wf());
        }
        match c.find_chunk() {
            Some(chunk) => {
                if str_eq(normalize_path_str(chunk.path.as_str()).as_str(), file) {
                    let more = parse_import_lines(chunk.content.as_str(), chunk.start_line);
                    append_imports(&mut out, more);
                }
            },
            None => {},
        }
        i += 1;
    }
    proof {
        assert(candidates@.take(candidates@.len() as int) =~= candidates@);
    }
    out
}

/// The lines of the imports.
pub open spec fn import_lines(items: Seq<ImportLine>) -> Seq<usize> {
    items.map_values(|i: ImportLine| i.line as usize)
}

/// The imports of a file in the order of their lines, or a message where there
/// are none.
pub fn import_reply(items: &Vec<ImportItem>) -> (r: Reply<ImportItem>)
    ensures
        if items@.len() == 0 {
            r matches Reply::Message(m) && m@
                == "No import chunks found. The index may not include import statements for this language, or the file has no imports."@
        } else {
            r matches Reply::Items(v) && imports_of(v@) == sorting::sorted_by(
                import_lines(imports_of(items@)),
                imports_of(items@),
            )
        },
{
    if items.len() == 0 {
        return Reply::Message(
            owned(
                "No import chunks found. The index may not include import statements for this language, or the file has no imports.",
            ),
        );
    }
    let ghost said = imports_of(items@);
    let mut keys: Vec<usize> = Vec::new();
    let mut i: usize = 0;
    while i < items.len()
        invariant
            i <= items.len(),
            said == imports_of(items@),
            keys@ == import_lines(said).take(i as int),
        decreases items.len() - i,
    {
        assert(said[i as int].line as usize == items@[i as int].line);
        keys.push(items[i].line);
        i += 1;
    }
    proof {
        assert(keys@ =~= import_lines(said));
    }
    let order = sort_places(&keys);
    let ghost all = sorting::sorted_by(import_lines(said), said);
    let mut out: Vec<ImportItem> = Vec::new();
    let mut j: usize = 0;
    while j < order.len()
        invariant
            j <= order.len(),
            said == imports_of(items@),
            keys@ == import_lines(said),
            sorting::is_sorting(keys@, order@),
            order@ == sorting::sorting(keys@),
            all == sorting::sorted_by(import_lines(said), said),
            imports_of(out@) == all.take(j as int),
        decreases order.len() - j,
    {
        assert(order@[j as int] < keys@.len());
        let ghost before = imports_of(out@);
        let item = &items[order[j]];
        out.push(
            ImportItem {
                imported: item.imported.clone(),
                line: item.line,
                kind: item.kind.clone(),
            },
        );
        proof {
            assert(imports_of(out@) =~= before.push(said[order@[j as int] as int]));
            assert(all.take(j + 1) =~= all.take(j as int).push(all[j as int]));
        }
        j += 1;
    }
    proof {
        assert(all.take(all.len() as int) =~= all);
    }
    Reply::Items(out)
}

// ---------------------------------------------------------------------------
// Dependents
// ---------------------------------------------------------------------------

/// A file that imports a module.
#[derive(Debug)]
pub struct DependentItem {
    pub path: String,
    pub line: usize,
    pub import_statement: String,
}

/// The last part of a path that names something: parts that are empty or `.`
/// name nothing.
pub open spec fn last_named(parts: Seq<Seq<char>>) -> Option<Seq<char>>
    decreases parts.len(),
{
    if parts.len() == 0 {
        None
    } else if parts.last().len() == 0 || parts.last() == seq!['.'] {
        last_named(parts.drop_last())
    } else {
        Some(parts.last())
    }
}

/// The last place of `c` in `s`.
pub open spec fn last_index(s: Seq<char>, c: char) -> Option<int>
    decreases s.len(),
{
    if s.len() == 0 {
        None
    } else if s.last() == c {
        Some(s.len() - 1)
    } else {
        last_index(s.drop_last(), c)
    }
}

/// A file name without what follows its last dot, unless the name begins there.
pub open spec fn stem(name: Seq<char>) -> Seq<char> {
    match last_index(name, '.') {
        Some(i) => if i > 0 {
            name.take(i)
        } else {
            name
        },
        None => name,
    }
}

/// The file name of a path without its extension.
pub open spec fn file_stem(path: Seq<char>) -> Option<Seq<char>> {
    match last_named(text::split_char(path, '/')) {
        Some(name) => if name == seq!['.', '.'] {
            None
        } else {
            Some(stem(name))
        },
        None => None,
    }
}

/// What is looked for in the imports of other files: of a path the name of the
/// file without its extension, and a symbol as it is.
pub open spec fn dependents_term(symbol_or_path: Seq<char>) -> Seq<char> {
    if symbol_or_path.contains('/') || symbol_or_path.contains('\\') || symbol_or_path.contains(
        '.',
    ) {
        match file_stem(symbol_or_path) {
            Some(s) => if s.len() > 0 {
                s
            } else {
                symbol_or_path
            },
            None => symbol_or_path,
        }
    } else {
        symbol_or_path
    }
}

fn find_last_named(parts: &Vec<Vec<char>>) -> (r: Option<usize>)
    ensures
        match r {
            Some(i) => i < parts.len() && last_named(text::views(parts@)) == Some(
                parts@[i as int]@,
            ),
            None => last_named(text::views(parts@)) is None,
        },
{
    let ghost all = text::views(parts@);
    let mut n: usize = parts.len();
    proof {
        assert(all.take(all.len() as int) =~= all);
    }
    while n > 0
        invariant
            n <= parts.len(),
            all == text::views(parts@),
            last_named(all) == last_named(all.take(n as int)),
        decreases n,
    {
        let p = &parts[n - 1];
        proof {
            assert(all.take(n as int).drop_last() =~= all.take(n - 1));
            assert(all.take(n as int).last() == p@);
        }
        let dot = p.len() == 1 && p[0] == '.';
        proof {
            if dot {
                assert(p@ =~= seq!['.']);
            }
        }
        if p.len() > 0 && !dot {
            return Some(n - 1);
        }
        n -= 1;
    }
    None
}

fn stem_of(name: &[char]) -> (r: String)
    ensures
        r@ == stem(name@),
{
    let mut n: usize = name.len();
    proof {
        assert(name@.take(name@.len() as int) =~= name@);
    }
    while n > 0
        invariant
            n <= name.len(),
            last_index(name@, '.') == last_index(name@.take(n as int), '.'),
        decreases n,
    {
        proof {
            assert(name@.take(n as int).drop_last() =~= name@.take(n - 1));
        }
        if name[n - 1] == '.' {
            return if n > 1 {
                proof {
                    assert(name@.subrange(0, n - 1) =~= name@.take(n - 1));
                }
                string_of(slice_subrange(name, 0, n - 1))
            } else {
                string_of(name)
            };
        }
        n -= 1;
    }
    string_of(name)
}

/// What is looked for in the imports of other files: of a path the name of the
/// file without its extension, and a symbol as it is.
pub fn dependents_search_term(symbol_or_path: &str) -> (r: String)
    ensures
        r@ == dependents_term(symbol_or_path@),
{
    let v = chars_of(symbol_or_path);
    let s = v.as_slice();
    if !contains_char(s, '/') && !contains_char(s, '\\') && !contains_char(s, '.') {
        return owned(symbol_or_path);
    }
    let parts = split(s, '/');
    match find_last_named(&parts) {
        Some(i) => {
            let name = &parts[i];
            let up = name.len() == 2 && name[0] == '.' && name[1] == '.';
            proof {
                if up {
                    assert(name@ =~= seq!['.', '.']);
                }
            }
            if up {
                return owned(symbol_or_path);
            }
            let t = stem_of(name.as_slice());
            if t.as_str().is_empty() {
                owned(symbol_or_path)
            } else {
                t
            }
        },
        None => owned(symbol_or_path),
    }
}

/// How many dependents are reported, and how many hits are asked for.
pub fn dependents_limits(limit: Option<usize>) -> (r: (usize, usize))
    ensures
        r.0 == (match limit {
            Some(l) => if l < 200 {
                l as int
            } else {
                200
            },
            None => 20,
        }),
        r.1 == (if r.0 * 10 > 200 {
            r.0 * 10
        } else {
            200
        }),
{
    let l: usize = match limit {
        Some(x) => if x < 200 {
            x
        } else {
            200
        },
        None => 20,
    };
    let high: usize = if l * 10 > 200 {
        l * 10
    } else {
        200
    };
    (l, high)
}

/// The first of the lines, from the `i`th on, that holds the term in any case.
pub open spec fn line_with(all: Seq<Seq<char>>, term_lower: Seq<char>, i: int) -> Seq<char>
    decreases all.len() - i,
{
    if i < 0 || i >= all.len() {
        Seq::empty()
    } else if text::has_text(chars::in_lower_case(all[i]), term_lower) {
        all[i]
    } else {
        line_with(all, term_lower, i + 1)
    }
}

/// The import by which a chunk depends on the term: the first line that holds
/// it, or else the signature of the chunk or its first line.
pub open spec fn dependency_line(chunk: ChunkMeta, term_lower: Seq<char>) -> Seq<char> {
    if text::has_text(chars::in_lower_case(chunk.content@), term_lower) {
        line_with(text::text_lines(chunk.content@), term_lower, 0)
    } else {
        match chunk.signature {
            Some(s) => if s@.len() > 0 {
                s@
            } else {
                literal::first_line(chunk.content@)
            },
            None => literal::first_line(chunk.content@),
        }
    }
}

/// The import by which a chunk depends on the term, which is in lower case.
pub fn import_statement(chunk: &ChunkMeta, term_lower: &str) -> (r: String)
    ensures
        r@ == dependency_line(*chunk, term_lower@),
{
    let all = lines(chars_of(chunk.content.as_str()).as_slice());
    let ghost ls = text::text_lines(chunk.content@);
    let lower = to_lowercase(chunk.content.as_str());
    if str_contains(lower.as_str(), term_lower) {
        let mut i: usize = 0;
        while i < all.len()
            invariant
                i <= all.len(),
                text::views(all@) == ls,
                ls == text::text_lines(chunk.content@),
                text::has_text(chars::in_lower_case(chunk.content@), term_lower@),
                line_with(ls, term_lower@, 0) == line_with(ls, term_lower@, i as int),
            decreases all.len() - i,
        {
            assert(all@[i as int]@ == ls[i as int]);
            let line = string_of(all[i].as_slice());
            let line_lower = to_lowercase(line.as_str());
            if str_contains(line_lower.as_str(), term_lower) {
                return line;
            }
            i += 1;
        }
        let none = String::new();
        proof {
            assert(none@ =~= line_with(ls, term_lower@, 0));
        }
        return none;
    }
    match &chunk.signature {
        Some(s) => {
            if !s.as_str().is_empty() {
                return s.clone();
            }
        },
        None => {},
    }
    if all.len() > 0 {
        assert(all@[0]@ == ls[0]);
        string_of(all[0].as_slice())
    } else {
        let none = String::new();
        proof {
            assert(none@ =~= literal::first_line(chunk.content@));
        }
        none
    }
}

/// A dependent, without its containers; with the path of the chunk and the path
/// that is shown.
#[verifier::ext_equal]
pub struct Dependent {
    pub file: Seq<char>,
    pub path: Seq<char>,
    pub line: int,
    pub import_statement: Seq<char>,
}

/// The file stands among the dependents.
pub open spec fn has_file(found: Seq<Dependent>, file: Seq<char>) -> bool {
    exists|i: int| 0 <= i < found.len() && (#[trigger] found[i]).file == file
}

/// The dependents among the candidates: the chunks with imports, of each file
/// the first.
pub open spec fn dependents_of(
    candidates: Seq<Candidate>,
    term_lower: Seq<char>,
    ctx: MultiStoreContext,
) -> Seq<Dependent>
    decreases candidates.len(),
{
    if candidates.len() == 0 {
        Seq::empty()
    } else {
        let before = dependents_of(candidates.drop_last(), term_lower, ctx);
        match candidates.last().found() {
            Some(chunk) => if holds_imports(chunk.kind@) && !has_file(
                before,
                paths::normal(chunk.path@),
            ) {
                before.push(
                    Dependent {
                        file: paths::normal(chunk.path@),
                        path: ctx.shown_path(chunk.path@),
                        line: chunk.start_line as int,
                        import_statement: dependency_line(chunk, term_lower),
                    },
                )
            } else {
                before
            },
            None => before,
        }
    }
}

/// The dependents that are reported.
pub open spec fn dependents_found(
    candidates: Seq<Candidate>,
    term_lower: Seq<char>,
    limit: int,
    ctx: MultiStoreContext,
) -> Seq<Dependent> {
    types::at_most(dependents_of(candidates, term_lower, ctx), limit)
}

/// The item says what the dependent does.
pub open spec fn item_is(item: DependentItem, d: Dependent) -> bool {
    item.path@ == d.path && item.line == d.line && item.import_statement@ == d.import_statement
}

/// The items say what the dependents do, one for one.
pub open spec fn items_are(items: Seq<DependentItem>, ds: Seq<Dependent>) -> bool {
    items.len() == ds.len() && forall|i: int|
        0 <= i < items.len() ==> item_is(#[trigger] items[i], ds[i])
}

proof fn lemma_dependents_prefix(
    candidates: Seq<Candidate>,
    term_lower: Seq<char>,
    ctx: MultiStoreContext,
    n: int,
)
    requires
        0 <= n <= candidates.len(),
    ensures
        dependents_of(candidates.take(n), term_lower, ctx).len() <= dependents_of(
            candidates,
            term_lower,
            ctx,
        ).len(),
        dependents_of(candidates.take(n), term_lower, ctx) == dependents_of(
            candidates,
            term_lower,
            ctx,
        ).take(dependents_of(candidates.take(n), term_lower, ctx).len() as int),
    decreases candidates.len() - n,
{
    let a = dependents_of(candidates.take(n), term_lower, ctx);
    let all = dependents_of(candidates, term_lower, ctx);
    if n == candidates.len() {
        assert(candidates.take(n) =~= candidates);
        assert(all.take(all.len() as int) =~= all);
    } else {
        lemma_dependents_prefix(candidates, term_lower, ctx, n + 1);
        let b = dependents_of(candidates.take(n + 1), term_lower, ctx);
        assert(candidates.take(n + 1).drop_last() =~= candidates.take(n));
        assert(a =~= b.take(a.len() as int));
        assert(a =~= all.take(a.len() as int));
    }
}

fn seen(files: &Vec<String>, file: &str, found: Ghost<Seq<Dependent>>) -> (r: bool)
    requires
        files@.len() == found@.len(),
        forall|i: int| 0 <= i < files@.len() ==> (#[trigger] files@[i])@ == found@[i].file,
    ensures
        r == has_file(found@, file@),
{
    let f = chars_of(file);
    let mut i: usize = 0;
    while i < files.len()
        invariant
            i <= files.len(),
            f@ == file@,
            files@.len() == found@.len(),
            forall|j: int| 0 <= j < files@.len() ==> (#[trigger] files@[j])@ == found@[j].file,
            forall|j: int| 0 <= j < i ==> (#[trigger] found@[j]).file != file@,
        decreases files.len() - i,
    {
        assert(files@[i as int]@ == found@[i as int].file);
        if same(chars_of(files[i].as_str()).as_slice(), f.as_slice()) {
            return true;
        }
        i += 1;
    }
    false
}

/// The dependents among the candidates of the full-text search, up to the
/// limit, in their order. The chunks of a candidate end before a store that
/// cannot be read.
pub fn collect_dependents(
    candidates: &Vec<Candidate>,
    term: &str,
    limit: usize,
    ctx: &MultiStoreContext,
) -> (r: Vec<DependentItem>)
    ensures
        items_are(
            r@,
            dependents_found(candidates@, chars::in_lower_case(term@), limit as int, *ctx),
        ),
{
    let lower = to_lowercase(term);
    let ghost t = lower@;
    let mut out: Vec<DependentItem> = Vec::new();
    let mut files: Vec<String> = Vec::new();
    let mut i: usize = 0;
    let ghost mut found = Seq::<Dependent>::empty();
    proof {
        assert(found =~= dependents_of(candidates@.take(0), t, *ctx));
    }
    while i < candidates.len() && out.len() < limit
        invariant
            i <= candidates.len(),
            t == lower@,
            out.len() <= limit,
            found == dependents_of(candidates@.take(i as int), t, *ctx),
            items_are(out@, found),
            files@.len() == found.len(),
            forall|j: int| 0 <= j < files@.len() ==> (#[trigger] files@[j])@ == found[j].file,
        decreases candidates.len() - i,
    {
        let c = &candidates[i];
        proof {
            assert(candidates@.take(i + 1).drop_last() =~= candidates@.take(i as int));
            assert(candidates@.take(i + 1).last() == *c);
        }
        match c.find_chunk() {
            Some(chunk) => {
                if is_import_kind(chunk.kind.as_str()) {
                    let file = normalize_path_str(chunk.path.as_str());
                    if !seen(&files, file.as_str(), Ghost(found)) {
                        let statement = import_statement(chunk, lower.as_str());
                        let path = ctx.prefix_result_path(chunk.path.as_str());
                        proof {
                            found = found.push(
                                Dependent {
                                    file: file@,
                                    path: path@,
                                    line: chunk.start_line as int,
                                    import_statement: statement@,
                                },
                            );
                        }
                        files.push(file);
                        out.push(
                            DependentItem {
                                path,
                                line: chunk.start_line,
                                import_statement: statement,
                            },
                        );
                    }
                }
            },
            None => {},
        }
        i += 1;
    }
    proof {
        lemma_dependents_prefix(candidates@, t, *ctx, i as int);
        if i == candidates.len() {
            assert(candidates@.take(i as int) =~= candidates@);
        }
        assert(found =~= dependents_found(candidates@, t, limit as int, *ctx));
    }
    out
}

/// The paths of the items.
pub open spec fn dependent_paths(items: Seq<DependentItem>) -> Seq<String> {
    items.map_values(|i: DependentItem| i.path)
}

/// The dependents in the order of their paths, or a message where there are
/// none.
pub fn dependents_reply(items: &Vec<DependentItem>, symbol_or_path: &str) -> (r: Reply<
    DependentItem,
>)
    ensures
        if items@.len() == 0 {
            r matches Reply::Message(m) && m@ == "No dependent files found for '"@
                + symbol_or_path@ + "'."@
        } else {
            r matches Reply::Items(v) && v@ == sorting::sorted_by(dependent_paths(items@), items@)
        },
{
    if items.len() == 0 {
        return Reply::Message(
            concat(concat("No dependent files found for '", symbol_or_path).as_str(), "'."),
        );
    }
    let mut keys: Vec<String> = Vec::new();
    let mut i: usize = 0;
    while i < items.len()
        invariant
            i <= items.len(),
            keys@ == dependent_paths(items@).take(i as int),
        decreases items.len() - i,
    {
        keys.push(items[i].path.clone());
        i += 1;
    }
    proof {
        assert(keys@ =~= dependent_paths(items@));
    }
    let order = sort_places(&keys);
    let ghost all = sorting::sorted_by(dependent_paths(items@), items@);
    let mut out: Vec<DependentItem> = Vec::new();
    let mut j: usize = 0;
    while j < order.len()
        invariant
            j <= order.len(),
            keys@ == dependent_paths(items@),
            sorting::is_sorting(keys@, order@),
            order@ == sorting::sorting(keys@),
            all == sorting::sorted_by(dependent_paths(items@), items@),
            out@ == all.take(j as int),
        decreases order.len() - j,
    {
        assert(order@[j as int] < keys@.len());
        let item = &items[order[j]];
        out.push(
            DependentItem {
                path: item.path.clone(),
                line: item.line,
                import_statement: item.import_statement.clone(),
            },
        );
        j += 1;
    }
    proof {
        assert(all.take(all.len() as int) =~= all);
    }
    Reply::Items(out)
}

/// Every import is the one on its own line, and the lines increase: there is at
/// most one import for each line.
pub proof fn law_imports_are_lines(content: Seq<char>, start: int, i: int, j: int)
    requires
        0 <= i <= j < chunk_imports(content, start).len(),
    ensures
        ({
            let import = chunk_imports(content, start)[j];
            let all = text::text_lines(content);
            &&& start <= import.line < start + all.len()
            &&& import_on(all[import.line - start]) == Some((import.kind, import.imported))
            &&& i < j ==> chunk_imports(content, start)[i].line < import.line
        }),
{
    lemma_imports_are_lines(text::text_lines(content), start, i, j);
}

proof fn lemma_imports_are_lines(all: Seq<Seq<char>>, start: int, i: int, j: int)
    requires
        0 <= i <= j < imports_in(all, start).len(),
    ensures
        ({
            let import = imports_in(all, start)[j];
            &&& start <= import.line < start + all.len()
            &&& import_on(all[import.line - start]) == Some((import.kind, import.imported))
            &&& i < j ==> imports_in(all, start)[i].line < import.line
        }),
    decreases all.len(),
{
    let front = all.drop_last();
    let before = imports_in(front, start);
    if j < before.len() {
        lemma_imports_are_lines(front, start, i, j);
        assert(front[before[j].line - start] == all[before[j].line - start]);
    } else if i < j {
        lemma_imports_are_lines(front, start, i, i);
    }
}

/// No file is reported as a dependent twice.
pub proof fn law_each_file_once(
    candidates: Seq<Candidate>,
    term_lower: Seq<char>,
    ctx: MultiStoreContext,
    i: int,
    j: int,
)
    requires
        0 <= i < j < dependents_of(candidates, term_lower, ctx).len(),
    ensures
        dependents_of(candidates, term_lower, ctx)[i].file != dependents_of(
            candidates,
            term_lower,
            ctx,
        )[j].file,
    decreases candidates.len(),
{
    let before = dependents_of(candidates.drop_last(), term_lower, ctx);
    if j < before.len() {
        law_each_file_once(candidates.drop_last(), term_lower, ctx, i, j);
    } else {
        let file = dependents_of(candidates, term_lower, ctx)[j].file;
        assert(!has_file(before, file));
        assert(before[i].file != file);
    }
}

/// Nothing but white space.
pub open spec fn blank(s: Seq<char>) -> bool {
    forall|i: int| 0 <= i < s.len() ==> text::is_space(s[i])
}

/// A name without white space at its ends and without a `;` at its end.
pub open spec fn is_bare(n: Seq<char>) -> bool {
    n.len() > 0 && !text::is_space(n[0]) && !text::is_space(n.last()) && n.last() != ';'
}

proof fn lemma_statement(n: Seq<char>, semicolons: nat)
    requires
        is_bare(n),
    ensures
        statement(n + Seq::new(semicolons, |i: int| ';')) == n,
{
    let run = Seq::new(semicolons, |i: int| ';');
    let core = n + run;
    let none = Seq::<char>::empty();
    assert(none + core + none =~= core);
    assert(core.last() == if semicolons > 0 { ';' } else { n.last() });
    text::law_trim(none, core, none);
    text::law_strip(semicolons, ';', n);
}

/// A line with a keyword and a name, white space around it and semicolons behind
/// it: it begins with the keyword, and behind that stands the name.
proof fn lemma_statement_line(
    left: Seq<char>,
    keyword: Seq<char>,
    n: Seq<char>,
    semicolons: nat,
    right: Seq<char>,
)
    requires
        blank(left),
        blank(right),
        is_bare(n),
        keyword.len() > 0,
        !text::is_space(keyword[0]),
    ensures
        ({
            let t = keyword + n + Seq::new(semicolons, |i: int| ';');
            &&& text::trimmed(left + t + right) == t
            &&& text::begins_with(t, keyword)
            &&& statement(t.skip(keyword.len() as int)) == n
        }),
{
    let run = Seq::new(semicolons, |i: int| ';');
    let t = keyword + n + run;
    assert(t[0] == keyword[0]);
    assert(t.last() == if semicolons > 0 { ';' } else { n.last() });
    text::law_trim(left, t, right);
    assert(t.subrange(0, keyword.len() as int) =~= keyword);
    assert(t.skip(keyword.len() as int) =~= n + run);
    lemma_statement(n, semicolons);
}

/// A line `use`, a name and semicolons imports the name.
pub proof fn law_use(left: Seq<char>, n: Seq<char>, semicolons: nat, right: Seq<char>)
    requires
        blank(left),
        blank(right),
        is_bare(n),
    ensures
        import_on(left + ("use "@ + n + Seq::new(semicolons, |i: int| ';')) + right) == Some(
            ("use"@, n),
        ),
{
    reveal_strlit("use ");
    reveal_strlit("using ");
    reveal_strlit("import ");
    reveal_strlit("from ");
    lemma_statement_line(left, "use "@, n, semicolons, right);
    let t = "use "@ + n + Seq::new(semicolons, |i: int| ';');
}

/// A line `using`, a name and semicolons imports the name, unless the name begins
/// with `(` or `var `, where it is no import.
pub proof fn law_using(left: Seq<char>, n: Seq<char>, semicolons: nat, right: Seq<char>)
    requires
        blank(left),
        blank(right),
        is_bare(n),
        n[0] != '(',
        !(n.len() >= 4 && n[0] == 'v' && n[1] == 'a' && n[2] == 'r' && n[3] == ' '),
    ensures
        import_on(left + ("using "@ + n + Seq::new(semicolons, |i: int| ';')) + right) == Some(
            ("using"@, n),
        ),
{
    reveal_strlit("use ");
    reveal_strlit("using ");
    reveal_strlit("import ");
    reveal_strlit("from ");
    lemma_statement_line(left, "using "@, n, semicolons, right);
    let t = "using "@ + n + Seq::new(semicolons, |i: int| ';');
    if text::begins_with(t, "use "@) {
        assert(t.subrange(0, "use "@.len() as int)[2] == t[2]);
    }
    reveal_strlit("(");
    reveal_strlit("var ");
    let rest = t.skip("using "@.len() as int);
    assert(rest =~= n + Seq::new(semicolons, |i: int| ';'));
    if text::begins_with(rest, "("@) {
        assert(rest.subrange(0, 1)[0] == rest[0]);
    }
    if text::begins_with(rest, "var "@) {
        let front = rest.subrange(0, 4);
        assert(front[0] == rest[0] && front[1] == rest[1] && front[2] == rest[2] && front[3]
            == rest[3]);
        if n.len() < 4 {
            assert(rest[n.len() as int] == ';' || n.len() == rest.len());
        }
    }
}

/// A line `import`, a name and semicolons imports the name.
pub proof fn law_import(left: Seq<char>, n: Seq<char>, semicolons: nat, right: Seq<char>)
    requires
        blank(left),
        blank(right),
        is_bare(n),
    ensures
        import_on(left + ("import "@ + n + Seq::new(semicolons, |i: int| ';')) + right) == Some(
            ("import"@, n),
        ),
{
    reveal_strlit("use ");
    reveal_strlit("using ");
    reveal_strlit("import ");
    reveal_strlit("from ");
    lemma_statement_line(left, "import "@, n, semicolons, right);
    let t = "import "@ + n + Seq::new(semicolons, |i: int| ';');
    if text::begins_with(t, "use "@) {
        assert(t.subrange(0, "use "@.len() as int)[0] == t[0]);
    }
    if text::begins_with(t, "using "@) {
        assert(t.subrange(0, "using "@.len() as int)[0] == t[0]);
    }
}

/// A line `from`, a name and semicolons imports the name.
pub proof fn law_from(left: Seq<char>, n: Seq<char>, semicolons: nat, right: Seq<char>)
    requires
        blank(left),
        blank(right),
        is_bare(n),
    ensures
        import_on(left + ("from "@ + n + Seq::new(semicolons, |i: int| ';')) + right) == Some(
            ("import"@, n),
        ),
{
    reveal_strlit("use ");
    reveal_strlit("using ");
    reveal_strlit("import ");
    reveal_strlit("from ");
    lemma_statement_line(left, "from "@, n, semicolons, right);
    let t = "from "@ + n + Seq::new(semicolons, |i: int| ';');
    if text::begins_with(t, "use "@) {
        assert(t.subrange(0, "use "@.len() as int)[0] == t[0]);
    }
    if text::begins_with(t, "using "@) {
        assert(t.subrange(0, "using "@.len() as int)[0] == t[0]);
    }
    if text::begins_with(t, "import "@) {
        assert(t.subrange(0, "import "@.len() as int)[0] == t[0]);
    }
}

/// A line `using (` or `using var ` is a statement and no import.
pub proof fn law_using_statement(left: Seq<char>, rest: Seq<char>, right: Seq<char>)
    requires
        blank(left),
        blank(right),
        rest.len() == 0 || !text::is_space(rest.last()),
    ensures
        import_on(left + ("using ("@ + rest) + right) is None,
        rest.len() > 0 ==> import_on(left + ("using var "@ + rest) + right) is None,
{
    reveal_strlit("use ");
    reveal_strlit("using ");
    reveal_strlit("(");
    reveal_strlit("var ");
    reveal_strlit("using (");
    reveal_strlit("using var ");
    let a = "using ("@ + rest;
    text::law_trim(left, a, right);
    assert(a.subrange(0, 6) =~= "using "@);
    assert(a.skip(6).subrange(0, 1) =~= "("@);
    if text::begins_with(a, "use "@) {
        assert(a.subrange(0, 4)[2] == a[2]);
    }
    if rest.len() > 0 {
        let b = "using var "@ + rest;
        text::law_trim(left, b, right);
        assert(b.subrange(0, 6) =~= "using "@);
        assert(b.skip(6).subrange(0, 4) =~= "var "@);
        if text::begins_with(b, "use "@) {
            assert(b.subrange(0, 4)[2] == b[2]);
        }
    }
}

/// A line `#include`, white space and a name imports the name.
pub proof fn law_include(left: Seq<char>, gap: Seq<char>, n: Seq<char>, right: Seq<char>)
    requires
        blank(left),
        blank(right),
        blank(gap),
        is_bare(n),
        n[0] != '#',
    ensures
        import_on(left + ("#include"@ + gap + n) + right) == Some(("include"@, n)),
{
    reveal_strlit("use ");
    reveal_strlit("using ");
    reveal_strlit("import ");
    reveal_strlit("from ");
    reveal_strlit("#include");
    let t = "#include"@ + gap + n;
    assert(t[0] == '#');
    assert(t.last() == n.last());
    text::law_trim(left, t, right);
    assert(t.subrange(0, 8) =~= "#include"@);
    let rest = t.skip(8);
    assert(rest =~= gap + n);
    if text::begins_with(t, "use "@) {
        assert(t.subrange(0, 4)[0] == t[0]);
    }
    if text::begins_with(t, "using "@) {
        assert(t.subrange(0, 6)[0] == t[0]);
    }
    if text::begins_with(t, "import "@) {
        assert(t.subrange(0, 7)[0] == t[0]);
    }
    if text::begins_with(t, "from "@) {
        assert(t.subrange(0, 5)[0] == t[0]);
    }
    if text::begins_with(rest, "#include"@) {
        assert(rest.subrange(0, 8)[0] == rest[0]);
        if gap.len() > 0 {
            assert(rest[0] == gap[0]);
            assert(text::is_space(gap[0]));
        }
    }
    assert(without_prefix(t, "#include"@) == without_prefix(rest, "#include"@));
    assert(without_prefix(rest, "#include"@) == rest);
    let none = Seq::<char>::empty();
    assert(gap + n + none =~= rest);
    text::law_trim(gap, n, none);
    assert(n + Seq::new(0, |i: int| ';') =~= n);
    text::law_strip(0, ';', n);
}

/// A line that begins with none of the keywords is an import where it holds
/// `require(`, and then the whole line is what it imports; else it is none.
pub proof fn law_require(left: Seq<char>, t: Seq<char>, right: Seq<char>)
    requires
        blank(left),
        blank(right),
        t.len() > 0 ==> !text::is_space(t[0]) && !text::is_space(t.last()),
        !text::begins_with(t, "use "@),
        !text::begins_with(t, "using "@),
        !text::begins_with(t, "import "@),
        !text::begins_with(t, "from "@),
        !text::begins_with(t, "#include"@),
    ensures
        text::has_text(t, "require("@) ==> import_on(left + t + right) == Some(("require"@, t)),
        !text::has_text(t, "require("@) ==> import_on(left + t + right) is None,
{
    text::law_trim(left, t, right);
}

/// The imports of a chunk are those of its lines, each once and in their order,
/// with the number of the line: none is passed over.
pub proof fn law_every_import_line(all: Seq<Seq<char>>, start: int) -> (places: Seq<int>)
    ensures
        sorting::selects(places, all.len() as int, |i: int| import_on(all[i]) is Some),
        imports_in(all, start).len() == places.len(),
        forall|k: int|
            0 <= k < places.len() ==> {
                let x = #[trigger] imports_in(all, start)[k];
                x.line == start + places[k] && import_on(all[places[k]]) == Some(
                    (x.kind, x.imported),
                )
            },
    decreases all.len(),
{
    if all.len() == 0 {
        Seq::empty()
    } else {
        let front = all.drop_last();
        let before = law_every_import_line(front, start);
        let first = imports_in(front, start);
        let whole = imports_in(all, start);
        let places = sorting::lemma_selects_step(
            before,
            all.len() - 1,
            |i: int| import_on(front[i]) is Some,
            |i: int| import_on(all[i]) is Some,
        );
        assert forall|k: int| 0 <= k < places.len() implies ({
            let x = #[trigger] whole[k];
            x.line == start + places[k] && import_on(all[places[k]]) == Some((x.kind, x.imported))
        }) by {
            if k < before.len() {
                assert(whole[k] == first[k]);
                assert(front[before[k]] == all[places[k]]);
            }
        }
        places
    }
}

/// An import on a line of a chunk is among the imports of the chunk, with the
/// number of that line.
pub proof fn law_import_is_found(
    content: Seq<char>,
    start: int,
    i: int,
    kind: Seq<char>,
    imported: Seq<char>,
)
    requires
        0 <= i < text::text_lines(content).len(),
        import_on(text::text_lines(content)[i]) == Some((kind, imported)),
    ensures
        chunk_imports(content, start).contains(ImportLine { imported, line: start + i, kind }),
{
    let all = text::text_lines(content);
    let places = law_every_import_line(all, start);
    let wanted = |i: int| import_on(all[i]) is Some;
    assert(wanted(i));
    let k = choose|k: int| 0 <= k < places.len() && places[k] == i;
    assert(imports_in(all, start)[k] == (ImportLine { imported, line: start + i, kind }));
}

/// Every `using` directive of a chunk is reported, with its number of line, its
/// kind and the name that it imports.
pub proof fn law_using_directives_are_reported(
    content: Seq<char>,
    start: int,
    i: int,
    left: Seq<char>,
    n: Seq<char>,
    semicolons: nat,
    right: Seq<char>,
)
    requires
        0 <= i < text::text_lines(content).len(),
        text::text_lines(content)[i] == left + ("using "@ + n + Seq::new(semicolons, |i: int| ';'))
            + right,
        blank(left),
        blank(right),
        is_bare(n),
        n[0] != '(',
        !(n.len() >= 4 && n[0] == 'v' && n[1] == 'a' && n[2] == 'r' && n[3] == ' '),
    ensures
        chunk_imports(content, start).contains(
            ImportLine { imported: n, line: start + i, kind: "using"@ },
        ),
{
    law_using(left, n, semicolons, right);
    law_import_is_found(content, start, i, "using"@, n);
}

/// Chunks of imports are those of the kinds `Import`, `Imports`, `Use`, `Require`
/// and `Include`, and no others.
pub proof fn law_import_kinds(kind: Seq<char>)
    ensures
        holds_imports("Import"@),
        holds_imports("Imports"@),
        holds_imports("Use"@),
        holds_imports("Require"@),
        holds_imports("Include"@),
        holds_imports(kind) ==> kind == "Import"@ || kind == "Imports"@ || kind == "Use"@ || kind
            == "Require"@ || kind == "Include"@,
        import_words() == seq!["import"@, "use"@, "using"@, "from"@, "require"@, "include"@],
{
}

/// A chunk that is listed for a file adds its imports behind those of the chunks
/// before it, where it is a chunk of imports; in several repositories only where
/// no chunk of imports before it has its number.
pub proof fn law_imports_of_a_file(rows: Seq<ImportRow>, row: ImportRow, is_multi: bool)
    requires
        row.chunk is Some,
    ensures
        row_imports(Seq::empty(), is_multi) == Seq::<ImportLine>::empty(),
        !holds_imports(row.kind@) ==> row_imports(rows.push(row), is_multi) == row_imports(
            rows,
            is_multi,
        ),
        holds_imports(row.kind@) && !is_multi ==> row_imports(rows.push(row), is_multi)
            == row_imports(rows, is_multi) + chunk_imports(
            row.chunk->0.content@,
            row.chunk->0.start_line as int,
        ),
        holds_imports(row.kind@) && is_multi && (forall|j: int|
            0 <= j < rows.len() && holds_imports((#[trigger] rows[j]).kind@) ==> rows[j].id
                != row.id) ==> row_imports(rows.push(row), is_multi) == row_imports(rows, is_multi)
            + chunk_imports(row.chunk->0.content@, row.chunk->0.start_line as int),
        is_multi && (exists|j: int|
            0 <= j < rows.len() && holds_imports((#[trigger] rows[j]).kind@) && rows[j].id
                == row.id) ==> row_imports(rows.push(row), is_multi) == row_imports(rows, is_multi),
{
    let all = rows.push(row);
    assert(all.drop_last() =~= rows);
    assert(all.last() == row);
    let fresh = forall|j: int|
        0 <= j < rows.len() && holds_imports((#[trigger] rows[j]).kind@) ==> rows[j].id != row.id;
    if fresh {
        assert(is_fresh(all, all.len() - 1)) by {
            assert forall|j: int|
                0 <= j < all.len() - 1 && all[j].id == all[all.len() - 1].id implies !holds_imports(
                (#[trigger] all[j]).kind@,
            ) by {
                assert(all[j] == rows[j]);
            }
        }
    } else {
        let j = choose|j: int|
            0 <= j < rows.len() && holds_imports((#[trigger] rows[j]).kind@) && rows[j].id == row.id;
        assert(all[j] == rows[j]);
        assert(!is_fresh(all, all.len() - 1));
    }
}

/// Of the hits of a search for imports those of the file count, and no others,
/// each with all imports of its chunk.
pub proof fn law_imports_of_candidates(candidates: Seq<Candidate>, c: Candidate, file: Seq<char>)
    ensures
        candidate_imports(Seq::empty(), file) == Seq::<ImportLine>::empty(),
        c.found() is Some && paths::normal(c.found()->0.path@) == file ==> candidate_imports(
            candidates.push(c),
            file,
        ) == candidate_imports(candidates, file) + chunk_imports(
            c.found()->0.content@,
            c.found()->0.start_line as int,
        ),
        c.found() is None || paths::normal(c.found()->0.path@) != file ==> candidate_imports(
            candidates.push(c),
            file,
        ) == candidate_imports(candidates, file),
{
    assert(candidates.push(c).drop_last() =~= candidates);
}

/// Imports are reported from the first line down, each once.
pub proof fn law_imports_rise(items: Seq<ImportLine>) -> (order: Seq<usize>)
    requires
        items.len() <= usize::MAX,
        forall|i: int| 0 <= i < items.len() ==> 0 <= (#[trigger] items[i]).line <= usize::MAX,
    ensures
        order.len() == items.len(),
        order.no_duplicates(),
        ({
            let all = sorting::sorted_by(import_lines(items), items);
            &&& all.len() == items.len()
            &&& forall|a: int|
                0 <= a < order.len() ==> 0 <= #[trigger] order[a] < items.len() && all[a]
                    == items[order[a] as int]
            &&& forall|a: int, b: int|
                0 <= a < b < all.len() ==> (#[trigger] all[a]).line <= (#[trigger] all[b]).line
        }),
{
    let keys = import_lines(items);
    let order = sorting::law_sorted_items(keys, items);
    let all = sorting::sorted_by(keys, items);
    assert forall|a: int, b: int| 0 <= a < b < all.len() implies (#[trigger] all[a]).line <= (
    #[trigger] all[b]).line by {
        let i = order[a] as int;
        let j = order[b] as int;
        assert(0 <= i < items.len() && 0 <= j < items.len());
        assert(sorting::SortKey::upto(keys[i], keys[j]));
        assert(keys[i] == items[i].line as usize && keys[j] == items[j].line as usize);
        assert(0 <= items[i].line <= usize::MAX && 0 <= items[j].line <= usize::MAX);
    }
    order
}

/// Dependents are reported in the order of their paths, each once.
pub proof fn law_dependents_rise(items: Seq<DependentItem>) -> (order: Seq<usize>)
    requires
        items.len() <= usize::MAX,
    ensures
        order.len() == items.len(),
        order.no_duplicates(),
        ({
            let all = sorting::sorted_by(dependent_paths(items), items);
            &&& all.len() == items.len()
            &&& forall|a: int|
                0 <= a < order.len() ==> 0 <= #[trigger] order[a] < items.len() && all[a]
                    == items[order[a] as int]
            &&& forall|a: int, b: int|
                0 <= a < b < all.len() ==> sorting::name_le(
                    (#[trigger] all[a]).path@,
                    (#[trigger] all[b]).path@,
                )
        }),
{
    let keys = dependent_paths(items);
    let order = sorting::law_sorted_items(keys, items);
    let all = sorting::sorted_by(keys, items);
    assert forall|a: int, b: int| 0 <= a < b < all.len() implies sorting::name_le(
        (#[trigger] all[a]).path@,
        (#[trigger] all[b]).path@,
    ) by {
        let i = order[a] as int;
        let j = order[b] as int;
        assert(0 <= i < items.len() && 0 <= j < items.len());
        assert(sorting::SortKey::upto(keys[i], keys[j]));
        sorting::law_texts_rise(keys[i], keys[j]);
    }
    order
}

proof fn lemma_last_index(name: Seq<char>, ext: Seq<char>, c: char)
    requires
        !ext.contains(c),
    ensures
        last_index(name.push(c) + ext, c) == Some(name.len() as int),
    decreases ext.len(),
{
    let s = name.push(c) + ext;
    if ext.len() == 0 {
        assert(s =~= name.push(c));
    } else {
        assert(ext.contains(ext.last()));
        let t = ext.drop_last();
        assert forall|i: int| 0 <= i < t.len() implies t[i] != c by {
            assert(ext.contains(ext[i]));
        }
        lemma_last_index(name, t, c);
        assert(s.drop_last() =~= name.push(c) + t);
        assert(s.last() == ext.last());
    }
}

/// For a path the files that depend on it are looked for by the name of the file
/// without its extension.
pub proof fn law_term_of_a_path(dir: Seq<char>, name: Seq<char>, ext: Seq<char>)
    requires
        name.len() > 0,
        !name.contains('/'),
        !ext.contains('/'),
        !ext.contains('.'),
        name != seq!['.'],
    ensures
        dependents_term(dir + seq!['/'] + name + seq!['.'] + ext) == name,
{
    let last = name.push('.') + ext;
    let path = dir + seq!['/'] + name + seq!['.'] + ext;
    assert(path =~= dir.push('/') + last);
    assert(path[dir.len() as int] == '/');
    assert(path.contains('/'));
    assert forall|i: int| 0 <= i < last.len() implies last[i] != '/' by {
        if i < name.len() {
            assert(name.contains(name[i]));
        } else if i > name.len() {
            assert(ext.contains(ext[i - name.len() - 1]));
        }
    }
    assert(!last.contains('/'));
    text::lemma_split_concat(dir, last, '/');
    text::law_split(last, Seq::empty(), '/');
    let parts = text::split_char(path, '/');
    text::lemma_split_nonempty(dir, '/');
    assert(parts.last() == last);
    assert(last.len() >= 2);
    lemma_last_index(name, ext, '.');
    assert(stem(last) =~= name);
    if last == seq!['.', '.'] {
        assert(last.len() == 2 && last[0] == '.');
        assert(name =~= seq!['.']);
    }
}

/// A symbol is looked for as it is.
pub proof fn law_term_of_a_symbol(symbol: Seq<char>)
    requires
        !symbol.contains('/'),
        !symbol.contains('\\'),
        !symbol.contains('.'),
    ensures
        dependents_term(symbol) == symbol,
{
}

proof fn lemma_line_with(all: Seq<Seq<char>>, term: Seq<char>, i: int, k: int)
    requires
        0 <= i <= k <= all.len(),
        forall|j: int| i <= j < k ==> !text::has_text(chars::in_lower_case(#[trigger] all[j]), term),
    ensures
        line_with(all, term, i) == line_with(all, term, k),
    decreases k - i,
{
    if i < k {
        assert(!text::has_text(chars::in_lower_case(all[i]), term));
        lemma_line_with(all, term, i + 1, k);
    }
}

/// A dependent shows the first line of its chunk that holds the term, in any case
/// of letters. Where the chunk does not hold the term it shows its signature, or
/// else its first line.
pub proof fn law_dependency_line(chunk: ChunkMeta, term: Seq<char>, k: int)
    ensures
        ({
            let lines = text::text_lines(chunk.content@);
            &&& text::has_text(chars::in_lower_case(chunk.content@), term) && 0 <= k < lines.len()
                && text::has_text(chars::in_lower_case(lines[k]), term) && (forall|j: int|
                0 <= j < k ==> !text::has_text(chars::in_lower_case(#[trigger] lines[j]), term))
                ==> dependency_line(chunk, term) == lines[k]
            &&& !text::has_text(chars::in_lower_case(chunk.content@), term) && chunk.signature
                is Some && chunk.signature->0@.len() > 0 ==> dependency_line(chunk, term)
                == chunk.signature->0@
            &&& !text::has_text(chars::in_lower_case(chunk.content@), term) && (chunk.signature
                is None || chunk.signature->0@.len() == 0) && lines.len() > 0 ==> dependency_line(
                chunk,
                term,
            ) == lines[0]
        }),
{
    let lines = text::text_lines(chunk.content@);
    if 0 <= k < lines.len() && (forall|j: int|
        0 <= j < k ==> !text::has_text(chars::in_lower_case(#[trigger] lines[j]), term)) {
        lemma_line_with(lines, term, 0, k);
    }
}

/// The files that depend on a term are those of the candidates that are chunks of
/// imports, of each file the first: all of them, in their order.
pub proof fn law_dependents_select(
    candidates: Seq<Candidate>,
    term: Seq<char>,
    ctx: MultiStoreContext,
) -> (places: Seq<int>)
    ensures
        sorting::selects(
            places,
            candidates.len() as int,
            |i: int| is_import_of(candidates[i]) && !named_before(candidates, i),
        ),
        dependents_of(candidates, term, ctx).len() == places.len(),
        forall|k: int|
            0 <= k < places.len() ==> {
                let d = #[trigger] dependents_of(candidates, term, ctx)[k];
                let chunk = candidates[places[k]].found()->0;
                &&& d.file == paths::normal(chunk.path@)
                &&& d.path == ctx.shown_path(chunk.path@)
                &&& d.line == chunk.start_line
                &&& d.import_statement == dependency_line(chunk, term)
            },
        forall|file: Seq<char>| #[trigger]
            has_file(dependents_of(candidates, term, ctx), file) <==> exists|i: int|
                0 <= i < candidates.len() && is_import_of(#[trigger] candidates[i])
                    && paths::normal(candidates[i].found()->0.path@) == file,
    decreases candidates.len(),
{
    if candidates.len() == 0 {
        Seq::empty()
    } else {
        let front = candidates.drop_last();
        let n = candidates.len() - 1;
        let before = law_dependents_select(front, term, ctx);
        let first = dependents_of(front, term, ctx);
        let all = dependents_of(candidates, term, ctx);
        let last = candidates.last();
        let old_wanted = |i: int| is_import_of(front[i]) && !named_before(front, i);
        let wanted = |i: int| is_import_of(candidates[i]) && !named_before(candidates, i);
        assert forall|k: int| 0 <= k < n implies old_wanted(k) == #[trigger] wanted(k) by {
            lemma_named_before(candidates, front, k);
        }
        if is_import_of(last) {
            let file = paths::normal(last.found()->0.path@);
            assert(has_file(first, file) <==> named_before(candidates, n)) by {
                if has_file(first, file) {
                    let i = choose|i: int|
                        0 <= i < front.len() && is_import_of(#[trigger] front[i]) && paths::normal(
                            front[i].found()->0.path@,
                        ) == file;
                    assert(is_import_of(candidates[i]));
                }
                if named_before(candidates, n) {
                    let i = choose|i: int|
                        0 <= i < n && is_import_of(#[trigger] candidates[i]) && paths::normal(
                            candidates[i].found()->0.path@,
                        ) == file;
                    assert(is_import_of(front[i]));
                }
            }
        }
        let places = sorting::lemma_selects_step(before, n, old_wanted, wanted);
        assert forall|k: int| 0 <= k < places.len() implies ({
            let d = #[trigger] all[k];
            let chunk = candidates[places[k]].found()->0;
            &&& d.file == paths::normal(chunk.path@)
            &&& d.path == ctx.shown_path(chunk.path@)
            &&& d.line == chunk.start_line
            &&& d.import_statement == dependency_line(chunk, term)
        }) by {
            if k < before.len() {
                assert(all[k] == first[k]);
                assert(front[before[k]] == candidates[places[k]]);
            }
        }
        assert forall|file: Seq<char>| #[trigger] has_file(all, file) <==> exists|i: int|
            0 <= i < candidates.len() && is_import_of(#[trigger] candidates[i]) && paths::normal(
                candidates[i].found()->0.path@,
            ) == file by {
            if has_file(all, file) {
                let k = choose|k: int| 0 <= k < all.len() && (#[trigger] all[k]).file == file;
                assert(wanted(places[k]));
                assert(is_import_of(candidates[places[k]]));
            }
            if exists|i: int|
                0 <= i < candidates.len() && is_import_of(#[trigger] candidates[i]) && paths::normal(
                    candidates[i].found()->0.path@,
                ) == file {
                let i = choose|i: int|
                    0 <= i < candidates.len() && is_import_of(#[trigger] candidates[i])
                        && paths::normal(candidates[i].found()->0.path@) == file;
                if i < n {
                    assert(is_import_of(front[i]));
                    assert(has_file(first, file));
                    let k = choose|k: int| 0 <= k < first.len() && (#[trigger] first[k]).file == file;
                    assert(all[k].file == file);
                } else if !has_file(first, file) {
                    assert(all[first.len() as int].file == file);
                } else {
                    let k = choose|k: int| 0 <= k < first.len() && (#[trigger] first[k]).file == file;
                    assert(all[k].file == file);
                }
            }
        }
        places
    }
}

/// The candidate is a chunk of imports.
pub open spec fn is_import_of(c: Candidate) -> bool {
    c.found() is Some && holds_imports(c.found()->0.kind@)
}

/// A chunk of imports before the `i`th candidate is of the same file.
pub open spec fn named_before(candidates: Seq<Candidate>, i: int) -> bool {
    exists|j: int|
        0 <= j < i && is_import_of(#[trigger] candidates[j]) && paths::normal(
            candidates[j].found()->0.path@,
        ) == paths::normal(candidates[i].found()->0.path@)
}

proof fn lemma_named_before(candidates: Seq<Candidate>, front: Seq<Candidate>, k: int)
    requires
        candidates.len() > 0,
        front == candidates.drop_last(),
        0 <= k < front.len(),
    ensures
        named_before(front, k) == named_before(candidates, k),
{
    if named_before(front, k) {
        let j = choose|j: int|
            0 <= j < k && is_import_of(#[trigger] front[j]) && paths::normal(
                front[j].found()->0.path@,
            ) == paths::normal(front[k].found()->0.path@);
        assert(is_import_of(candidates[j]));
    }
    if named_before(candidates, k) {
        let j = choose|j: int|
            0 <= j < k && is_import_of(#[trigger] candidates[j]) && paths::normal(
                candidates[j].found()->0.path@,
            ) == paths::normal(candidates[k].found()->0.path@);
        assert(is_import_of(front[j]));
    }
}

/// What an item says is what it holds.
pub proof fn law_import_items(items: Seq<ImportItem>, dependents: Seq<DependentItem>, d: Seq<Dependent>, i: int)
    ensures
        imports_of(items).len() == items.len(),
        0 <= i < items.len() ==> imports_of(items)[i].imported == items[i].imported@ && imports_of(
            items,
        )[i].line == items[i].line && imports_of(items)[i].kind == items[i].kind@,
        items_are(dependents, d) ==> dependents.len() == d.len() && (0 <= i < d.len()
            ==> dependents[i].path@ == d[i].path && dependents[i].line == d[i].line
            && dependents[i].import_statement@ == d[i].import_statement),
{
    if items_are(dependents, d) && 0 <= i < d.len() {
        assert(item_is(dependents[i], d[i]));
    }
}

/// Forty matches of a word are read for its dependents.
pub proof fn law_word_limit()
    ensures
        IMPORT_WORD_LIMIT == 40,
{
}

/// The operation itself: every line of a content that is a `using` directive, but
/// for white space around it and semicolons at its end, is reported with the name
/// that it imports.
pub proof fn law_using_lines_are_parsed(
    content: &str,
    start_line: usize,
    r: Vec<ImportItem>,
    i: int,
    left: Seq<char>,
    n: Seq<char>,
    semicolons: nat,
    right: Seq<char>,
) -> (k: int)
    requires
        start_line + text::text_lines(content@).len() <= usize::MAX,
        call_ensures(parse_import_lines, (content, start_line), r),
        0 <= i < text::text_lines(content@).len(),
        text::text_lines(content@)[i] == left + ("using "@ + n + Seq::new(semicolons, |i: int| ';'))
            + right,
        blank(left),
        blank(right),
        is_bare(n),
        n[0] != '(',
        !(n.len() >= 4 && n[0] == 'v' && n[1] == 'a' && n[2] == 'r' && n[3] == ' '),
    ensures
        0 <= k < r@.len(),
        r@[k].imported@ == n,
        r@[k].line == start_line + i,
        r@[k].kind@ == "using"@,
{
    law_using_directives_are_reported(
        content@,
        start_line as int,
        i,
        left,
        n,
        semicolons,
        right,
    );
    let wanted = ImportLine { imported: n, line: start_line + i, kind: "using"@ };
    let all = chunk_imports(content@, start_line as int);
    let k = choose|k: int| 0 <= k < all.len() && all[k] == wanted;
    assert(imports_of(r@)[k] == wanted);
    k
}

/// No more than 200 dependents are reported, 20 without a limit, and ten times as
/// many matches are read, no fewer than 200.
pub proof fn law_limits_of_dependents(limit: Option<usize>, r: (usize, usize))
    requires
        call_ensures(dependents_limits, (limit,), r),
    ensures
        limit is None ==> r == (20usize, 200usize),
        limit is Some && limit->0 <= 20 ==> r == (limit->0, 200usize),
        limit is Some && 20 < limit->0 <= 200 ==> r.0 == limit->0 && r.1 == 10 * limit->0,
        limit is Some && limit->0 > 200 ==> r == (200usize, 2000usize),
{
}

/// The dependents that are reported are the first ones, up to the limit.
pub proof fn law_reported_dependents(
    candidates: Seq<Candidate>,
    term_lower: Seq<char>,
    limit: int,
    ctx: MultiStoreContext,
    i: int,
)
    requires
        0 <= limit,
    ensures
        ({
            let all = dependents_of(candidates, term_lower, ctx);
            let some = dependents_found(candidates, term_lower, limit, ctx);
            &&& all.len() <= limit ==> some == all
            &&& all.len() > limit ==> some.len() == limit
            &&& 0 <= i < some.len() ==> some[i] == all[i]
        }),
{
}

/// Items and dependents that agree have the same paths, lines and statements.
pub proof fn law_items_of_dependents(items: Seq<DependentItem>, ds: Seq<Dependent>, i: int)
    requires
        items_are(items, ds),
        0 <= i < ds.len(),
    ensures
        items.len() == ds.len(),
        items[i].path@ == ds[i].path,
        items[i].line == ds[i].line,
        items[i].import_statement@ == ds[i].import_statement,
{
    assert(item_is(items[i], ds[i]));
}

} // verus!

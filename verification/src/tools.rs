//! The file tools offered to the model: what each one answers, given what
//! the file system gave back. Reading and writing the disk is left to the
//! caller; the answers are decided here.
use vstd::prelude::*;

use crate::text::{chars_of, decimal, owned, push_char, push_chars, push_decimal, push_str};

verus! {

/// Arguments of the file-creation tool.
pub struct CreateFileArgs {
    /// Path of the file to create.
    pub path: String,
    /// Text to write into it.
    pub content: String,
}

/// A file-system failure while creating a file, with the system's own words.
pub struct FileError(pub String);

impl FileError {
    /// The error as shown to the model: `Error de archivo: <detail>`.
    pub fn message(&self) -> (r: String)
        ensures
            r@ == "Error de archivo: "@ + self.0@,
    {
        let mut s = owned("Error de archivo: ");
        push_str(&mut s, self.0.as_str());
        s
    }
}

/// The tool that creates a text file.
pub struct CreateFileTool;

impl CreateFileTool {
    /// The name under which the model calls the tool.
    pub fn name() -> (r: &'static str)
        ensures
            r@ == "crear_archivo"@,
    {
        "crear_archivo"
    }

    /// What the tool does, as told to the model.
    pub fn description(&self) -> (r: String)
        ensures
            r@ == "Crea un archivo de texto en el disco con el nombre y contenido especificados."@,
    {
        owned("Crea un archivo de texto en el disco con el nombre y contenido especificados.")
    }

    /// The answer once the file at `path` has been written.
    pub fn created_message(path: &str) -> (r: String)
        ensures
            r@ == "Archivo '"@ + path@ + "' creado de forma exitosa."@,
    {
        let mut s = owned("Archivo '");
        push_str(&mut s, path);
        push_str(&mut s, "' creado de forma exitosa.");
        s
    }
}

/// Arguments of the read tool: a path and an optional range of lines,
/// numbered from 1, both ends included.
pub struct ReadFileArgs {
    pub path: String,
    pub start_line: Option<usize>,
    pub end_line: Option<usize>,
}

/// A file-system failure while reading a file.
pub struct ReadFileError(pub String);

impl ReadFileError {
    /// The error as shown to the model: `Error al leer archivo: <detail>`.
    pub fn message(&self) -> (r: String)
        ensures
            r@ == "Error al leer archivo: "@ + self.0@,
    {
        let mut s = owned("Error al leer archivo: ");
        push_str(&mut s, self.0.as_str());
        s
    }
}

/// A line without the carriage return that ended it, if any.
pub open spec fn strip_cr(l: Seq<char>) -> Seq<char> {
    if l.len() > 0 && l.last() == '\r' {
        l.drop_last()
    } else {
        l
    }
}

/// The lines completed so far by a line feed, and the text after the last
/// one.
pub open spec fn line_scan(s: Seq<char>) -> (Seq<Seq<char>>, Seq<char>)
    decreases s.len(),
{
    if s.len() == 0 {
        (Seq::empty(), Seq::empty())
    } else {
        let (ls, cur) = line_scan(s.drop_last());
        if s.last() == '\n' {
            (ls.push(strip_cr(cur)), Seq::empty())
        } else {
            (ls, cur.push(s.last()))
        }
    }
}

/// The lines of a text: each ends at a line feed (or a carriage return and
/// line feed), which is not part of it; text after the last line feed is a
/// last line when it is not empty.
pub open spec fn text_lines(s: Seq<char>) -> Seq<Seq<char>> {
    let (ls, cur) = line_scan(s);
    if cur.len() == 0 {
        ls
    } else {
        ls.push(cur)
    }
}

/// Lines joined by line feeds.
pub open spec fn join_lines(ls: Seq<Seq<char>>) -> Seq<char>
    decreases ls.len(),
{
    if ls.len() == 0 {
        Seq::empty()
    } else if ls.len() == 1 {
        ls[0]
    } else {
        join_lines(ls.drop_last()) + seq!['\n'] + ls.last()
    }
}

/// The index of the first requested line: one less than `start_line`
/// (never below zero), or zero.
pub open spec fn first_index(start_line: Option<usize>) -> nat {
    match start_line {
        Some(s) => if s >= 1 {
            (s - 1) as nat
        } else {
            0
        },
        None => 0,
    }
}

/// One past the index of the last requested line: `end_line`, or the number
/// of lines, whichever is less.
pub open spec fn end_index(end_line: Option<usize>, total: nat) -> nat {
    match end_line {
        Some(e) => if e < total {
            e as nat
        } else {
            total
        },
        None => total,
    }
}

/// The note given for a range that selects no line.
pub open spec fn invalid_range_text(path: Seq<char>, total: nat, start: nat, end: nat) -> Seq<
    char,
> {
    "[Rango inválido: el archivo '"@ + path + "' tiene "@ + decimal(total)
        + " líneas, se solicitó de "@ + decimal(start + 1) + " a "@ + decimal(end) + "]"@
}

/// The answer of the read tool for a file at `path` holding `content`: the
/// whole content when no range is given; else the requested lines joined by
/// line feeds, or a note when the range selects none.
pub open spec fn read_answer(
    path: Seq<char>,
    content: Seq<char>,
    start_line: Option<usize>,
    end_line: Option<usize>,
) -> Seq<char> {
    if start_line is None && end_line is None {
        content
    } else {
        let lines = text_lines(content);
        let total = lines.len();
        let start = first_index(start_line);
        let end = end_index(end_line, total);
        if start >= total || start >= end {
            invalid_range_text(path, total, start, end)
        } else {
            join_lines(lines.subrange(start as int, end as int))
        }
    }
}

/// The characters of each vector.
pub open spec fn char_seqs(v: Seq<Vec<char>>) -> Seq<Seq<char>> {
    v.map_values(|x: Vec<char>| x@)
}

fn lines_of(cs: &Vec<char>) -> (r: Vec<Vec<char>>)
    ensures
        char_seqs(r@) == text_lines(cs@),
{
    let mut ls: Vec<Vec<char>> = Vec::new();
    let mut cur: Vec<char> = Vec::new();
    let mut i: usize = 0;
    while i < cs.len()
        invariant
            i <= cs.len(),
            (char_seqs(ls@), cur@) == line_scan(cs@.take(i as int)),
        decreases cs.len() - i,
    {
        proof {
            assert(cs@.take(i + 1int).drop_last() =~= cs@.take(i as int));
            assert(cs@.take(i + 1int).last() == cs@[i as int]);
        }
        let c = cs[i];
        if c == '\n' {
            let n = cur.len();
            if n > 0 && cur[n - 1] == '\r' {
                cur.pop();
            }
            let ghost before = char_seqs(ls@);
            ls.push(cur);
            proof {
                assert(char_seqs(ls@) =~= before.push(ls@.last()@));
            }
            cur = Vec::new();
        } else {
            cur.push(c);
        }
        i = i + 1;
    }
    assert(cs@.take(cs.len() as int) =~= cs@);
    if cur.len() > 0 {
        let ghost before = char_seqs(ls@);
        ls.push(cur);
        proof {
            assert(char_seqs(ls@) =~= before.push(ls@.last()@));
        }
    }
    ls
}

/// The number of lines of a text.
pub fn line_count(content: &str) -> (r: usize)
    ensures
        r == text_lines(content@).len(),
{
    let cs = chars_of(content);
    let ls = lines_of(&cs);
    assert(char_seqs(ls@).len() == ls@.len());
    ls.len()
}

fn join_range(ls: &Vec<Vec<char>>, lo: usize, hi: usize) -> (r: String)
    requires
        lo < hi <= ls.len(),
    ensures
        r@ == join_lines(char_seqs(ls@).subrange(lo as int, hi as int)),
{
    let mut out = String::new();
    push_chars(&mut out, &ls[lo]);
    let mut k: usize = lo + 1;
    proof {
        assert(char_seqs(ls@).subrange(lo as int, k as int) =~= seq![ls@[lo as int]@]);
    }
    while k < hi
        invariant
            lo < k <= hi <= ls.len(),
            out@ == join_lines(char_seqs(ls@).subrange(lo as int, k as int)),
        decreases hi - k,
    {
        proof {
            let sub = char_seqs(ls@).subrange(lo as int, k + 1int);
            assert(sub.drop_last() =~= char_seqs(ls@).subrange(lo as int, k as int));
            assert(sub.last() == ls@[k as int]@);
        }
        push_char(&mut out, '\n');
        push_chars(&mut out, &ls[k]);
        k = k + 1;
    }
    out
}

/// The tool that reads a text file.
pub struct ReadFileTool;

impl ReadFileTool {
    /// The name under which the model calls the tool.
    pub fn name() -> (r: &'static str)
        ensures
            r@ == "leer_archivo"@,
    {
        "leer_archivo"
    }

    /// What the tool does, as told to the model.
    pub fn description(&self) -> (r: String)
        ensures
            r@
                == "Lee el contenido de un archivo de texto en el disco. Opcionalmente se puede especificar un rango de líneas (1-based)."@,
    {
        owned(
            "Lee el contenido de un archivo de texto en el disco. Opcionalmente se puede especificar un rango de líneas (1-based).",
        )
    }

    /// The answer to `args` for a file whose content is `content`.
    pub fn answer(args: &ReadFileArgs, content: &str) -> (r: String)
        ensures
            r@ == read_answer(args.path@, content@, args.start_line, args.end_line),
    {
        if args.start_line.is_none() && args.end_line.is_none() {
            return owned(content);
        }
        let cs = chars_of(content);
        let lines = lines_of(&cs);
        let total = lines.len();
        let start: usize = match args.start_line {
            Some(s) => if s >= 1 {
                s - 1
            } else {
                0
            },
            None => 0,
        };
        let end: usize = match args.end_line {
            Some(e) => if e < total {
                e
            } else {
                total
            },
            None => total,
        };
        proof {
            assert(char_seqs(lines@).len() == lines@.len());
        }
        if start >= total || start >= end {
            let mut s = owned("[Rango inválido: el archivo '");
            push_str(&mut s, args.path.as_str());
            push_str(&mut s, "' tiene ");
            push_decimal(&mut s, total as u64);
            push_str(&mut s, " líneas, se solicitó de ");
            push_decimal(&mut s, (start + 1) as u64);
            push_str(&mut s, " a ");
            push_decimal(&mut s, end as u64);
            push_str(&mut s, "]");
            s
        } else {
            join_range(&lines, start, end)
        }
    }
}

/// Arguments of the listing tool: the directory, or none for the current
/// one.
pub struct ListDirArgs {
    pub path: Option<String>,
}

/// The directory a listing is about: the given path, or `.`.
pub open spec fn listed_dir(path: Option<String>) -> Seq<char> {
    match path {
        Some(p) => p@,
        None => "."@,
    }
}

impl ListDirArgs {
    /// The directory to list: the given path, or `.`.
    pub fn dir_path(&self) -> (r: String)
        ensures
            r@ == listed_dir(self.path),
    {
        match &self.path {
            Some(p) => owned(p.as_str()),
            None => owned("."),
        }
    }
}

/// A file-system failure while listing a directory.
pub struct ListDirError(pub String);

impl ListDirError {
    /// The error as shown to the model: `Error al listar directorio: <detail>`.
    pub fn message(&self) -> (r: String)
        ensures
            r@ == "Error al listar directorio: "@ + self.0@,
    {
        let mut s = owned("Error al listar directorio: ");
        push_str(&mut s, self.0.as_str());
        s
    }
}

/// Whether `a` comes no later than `b` in the order of names: character by
/// character by code point, a prefix first.
pub open spec fn name_le(a: Seq<char>, b: Seq<char>) -> bool
    decreases a.len(),
{
    if a.len() == 0 {
        true
    } else if b.len() == 0 {
        false
    } else if a[0] != b[0] {
        a[0] < b[0]
    } else {
        name_le(a.drop_first(), b.drop_first())
    }
}

/// `s` with `e` placed after the last name that comes no later than it.
pub open spec fn insert_name(s: Seq<Seq<char>>, e: Seq<char>) -> Seq<Seq<char>>
    decreases s.len(),
{
    if s.len() == 0 || name_le(s.last(), e) {
        s.push(e)
    } else {
        insert_name(s.drop_last(), e).push(s.last())
    }
}

/// The names in ascending order.
pub open spec fn sort_names(s: Seq<Seq<char>>) -> Seq<Seq<char>>
    decreases s.len(),
{
    if s.len() == 0 {
        s
    } else {
        insert_name(sort_names(s.drop_last()), s.last())
    }
}

/// Whether the names are in ascending order.
pub open spec fn names_sorted(s: Seq<Seq<char>>) -> bool {
    forall|i: int, j: int| 0 <= i < j < s.len() ==> name_le(#[trigger] s[i], #[trigger] s[j])
}

/// The shown names of the entries that are directories (when `dirs`) or
/// files (when not), in their given order; a directory's name ends in `/`.
pub open spec fn entry_names(entries: Seq<(String, bool)>, dirs: bool) -> Seq<Seq<char>>
    decreases entries.len(),
{
    if entries.len() == 0 {
        Seq::empty()
    } else {
        let rest = entry_names(entries.drop_last(), dirs);
        let (name, is_dir) = entries.last();
        if is_dir != dirs {
            rest
        } else if is_dir {
            rest.push(name@.push('/'))
        } else {
            rest.push(name@)
        }
    }
}

/// One line per name.
pub open spec fn bullet_lines(names: Seq<Seq<char>>) -> Seq<char>
    decreases names.len(),
{
    if names.len() == 0 {
        Seq::empty()
    } else {
        bullet_lines(names.drop_last()) + "  - "@ + names.last() + "\n"@
    }
}

/// A titled section of a listing; an empty one says so.
pub open spec fn listing_section(title: Seq<char>, names: Seq<Seq<char>>) -> Seq<char> {
    title + if names.len() == 0 {
        "  (Ninguno)\n"@
    } else {
        bullet_lines(names)
    }
}

/// The answer of the listing tool for directory `dir` with the given
/// entries (name, and whether it is a directory): the subdirectories, then
/// the files, each in ascending order of name.
pub open spec fn listing_text(dir: Seq<char>, entries: Seq<(String, bool)>) -> Seq<char> {
    "Directorio '"@ + dir + "':\n"@ + listing_section(
        "📁 Subdirectorios:\n"@,
        sort_names(entry_names(entries, true)),
    ) + listing_section("📄 Archivos:\n"@, sort_names(entry_names(entries, false)))
}

/// The characters of each string.
pub open spec fn string_seqs(v: Seq<String>) -> Seq<Seq<char>> {
    v.map_values(|x: String| x@)
}

fn le_names(a: &Vec<char>, b: &Vec<char>) -> (r: bool)
    ensures
        r == name_le(a@, b@),
{
    let mut i: usize = 0;
    assert(a@.skip(0) =~= a@ && b@.skip(0) =~= b@);
    while i < a.len() && i < b.len()
        invariant
            i <= a.len(),
            i <= b.len(),
            name_le(a@, b@) == name_le(a@.skip(i as int), b@.skip(i as int)),
        decreases a.len() - i,
    {
        if a[i] != b[i] {
            return a[i] < b[i];
        }
        proof {
            assert(a@.skip(i as int).drop_first() =~= a@.skip(i + 1int));
            assert(b@.skip(i as int).drop_first() =~= b@.skip(i + 1int));
        }
        i = i + 1;
    }
    i == a.len()
}

proof fn lemma_insert_name_at(s: Seq<Seq<char>>, e: Seq<char>, j: int)
    requires
        0 <= j <= s.len(),
        j == 0 || name_le(s[j - 1], e),
        forall|k: int| j <= k < s.len() ==> !name_le(#[trigger] s[k], e),
    ensures
        insert_name(s, e) == s.insert(j, e),
    decreases s.len(),
{
    if s.len() == 0 || name_le(s.last(), e) {
        assert(j == s.len());
        assert(s.insert(j, e) =~= s.push(e));
    } else {
        lemma_insert_name_at(s.drop_last(), e, j);
        assert(s.insert(j, e) =~= s.drop_last().insert(j, e).push(s.last()));
    }
}

fn sorted_names(names: Vec<String>) -> (r: Vec<String>)
    ensures
        string_seqs(r@) == sort_names(string_seqs(names@)),
{
    let ghost orig = string_seqs(names@);
    let mut rest = names;
    let mut out: Vec<String> = Vec::new();
    let ghost done: nat = 0;
    while rest.len() > 0
        invariant
            done + rest@.len() == orig.len(),
            string_seqs(rest@) == orig.skip(done as int),
            string_seqs(out@) == sort_names(orig.take(done as int)),
        decreases rest@.len(),
    {
        let ghost before = rest@;
        let e = rest.remove(0);
        proof {
            assert(orig.take(done + 1int).drop_last() =~= orig.take(done as int));
            assert(string_seqs(before)[0] == e@);
            assert(orig.take(done + 1int).last() == e@);
            assert(rest@ =~= before.remove(0));
            assert forall|k: int| 0 <= k < string_seqs(rest@).len() implies #[trigger] string_seqs(
                rest@,
            )[k] == orig.skip(done + 1int)[k] by {
                assert(string_seqs(rest@)[k] == before[k + 1]@);
                assert(string_seqs(before)[k + 1] == orig.skip(done as int)[k + 1]);
            }
            assert(string_seqs(rest@) =~= orig.skip(done + 1int));
        }
        let ec = chars_of(e.as_str());
        let mut j = out.len();
        while j > 0 && !le_names(&chars_of(out[j - 1].as_str()), &ec)
            invariant
                j <= out@.len(),
                ec@ == e@,
                forall|k: int| j <= k < out@.len() ==> !name_le(#[trigger] out@[k]@, e@),
            decreases j,
        {
            j = j - 1;
        }
        proof {
            let so = string_seqs(out@);
            assert forall|k: int| j <= k < so.len() implies !name_le(#[trigger] so[k], e@) by {
                assert(so[k] == out@[k]@);
            }
            if j > 0 {
                assert(so[j - 1] == out@[j - 1]@);
            }
            lemma_insert_name_at(so, e@, j as int);
        }
        let ghost so_before = string_seqs(out@);
        out.insert(j, e);
        proof {
            assert(string_seqs(out@) =~= so_before.insert(j as int, e@));
            done = done + 1;
        }
    }
    assert(orig.take(orig.len() as int) =~= orig);
    out
}

/// Splits the entries into the names of directories (each ending in `/`) and
/// of files, in their given order.
fn split_entries(entries: Vec<(String, bool)>) -> (r: (Vec<String>, Vec<String>))
    ensures
        string_seqs(r.0@) == entry_names(entries@, true),
        string_seqs(r.1@) == entry_names(entries@, false),
{
    let ghost orig = entries@;
    let mut dirs: Vec<String> = Vec::new();
    let mut files: Vec<String> = Vec::new();
    let mut i: usize = 0;
    while i < entries.len()
        invariant
            i <= entries.len(),
            orig == entries@,
            string_seqs(dirs@) == entry_names(orig.take(i as int), true),
            string_seqs(files@) == entry_names(orig.take(i as int), false),
        decreases entries.len() - i,
    {
        proof {
            assert(orig.take(i + 1int).drop_last() =~= orig.take(i as int));
            assert(orig.take(i + 1int).last() == orig[i as int]);
        }
        let is_dir = entries[i].1;
        let mut name = owned(entries[i].0.as_str());
        if is_dir {
            push_char(&mut name, '/');
            let ghost before = string_seqs(dirs@);
            dirs.push(name);
            assert(string_seqs(dirs@) =~= before.push(dirs@.last()@));
        } else {
            let ghost before = string_seqs(files@);
            files.push(name);
            assert(string_seqs(files@) =~= before.push(files@.last()@));
        }
        i = i + 1;
    }
    assert(orig.take(orig.len() as int) =~= orig);
    (dirs, files)
}

fn push_section(out: &mut String, title: &str, names: &Vec<String>)
    ensures
        final(out)@ == old(out)@ + listing_section(title@, string_seqs(names@)),
{
    push_str(out, title);
    let ghost start = out@;
    if names.len() == 0 {
        push_str(out, "  (Ninguno)\n");
    } else {
        let mut k: usize = 0;
        while k < names.len()
            invariant
                k <= names.len(),
                out@ == start + bullet_lines(string_seqs(names@).take(k as int)),
            decreases names.len() - k,
        {
            proof {
                let t = string_seqs(names@).take(k + 1int);
                assert(t.drop_last() =~= string_seqs(names@).take(k as int));
                assert(t.last() == names@[k as int]@);
            }
            push_str(out, "  - ");
            push_str(out, names[k].as_str());
            push_str(out, "\n");
            k = k + 1;
        }
        assert(string_seqs(names@).take(names.len() as int) =~= string_seqs(names@));
    }
}

/// The tool that lists a directory.
pub struct ListDirTool;

impl ListDirTool {
    /// The name under which the model calls the tool.
    pub fn name() -> (r: &'static str)
        ensures
            r@ == "listar_directorio"@,
    {
        "listar_directorio"
    }

    /// What the tool does, as told to the model.
    pub fn description(&self) -> (r: String)
        ensures
            r@
                == "Lista los archivos y subdirectorios presentes en la ruta especificada (o el directorio actual si no se provee)."@,
    {
        owned(
            "Lista los archivos y subdirectorios presentes en la ruta especificada (o el directorio actual si no se provee).",
        )
    }

    /// The answer for directory `dir`, whose entries are given by name and
    /// whether each is a directory.
    pub fn listing(dir: &str, entries: Vec<(String, bool)>) -> (r: String)
        ensures
            r@ == listing_text(dir@, entries@),
    {
        let (dirs, files) = split_entries(entries);
        let dirs = sorted_names(dirs);
        let files = sorted_names(files);
        let mut out = owned("Directorio '");
        push_str(&mut out, dir);
        push_str(&mut out, "':\n");
        push_section(&mut out, "📁 Subdirectorios:\n", &dirs);
        push_section(&mut out, "📄 Archivos:\n", &files);
        out
    }
}

proof fn lemma_name_total(a: Seq<char>, b: Seq<char>)
    ensures
        name_le(a, b) || name_le(b, a),
    decreases a.len(),
{
    if a.len() > 0 && b.len() > 0 {
        if a[0] == b[0] {
            lemma_name_total(a.drop_first(), b.drop_first());
        }
    }
}

proof fn lemma_name_trans(a: Seq<char>, b: Seq<char>, c: Seq<char>)
    requires
        name_le(a, b),
        name_le(b, c),
    ensures
        name_le(a, c),
    decreases a.len(),
{
    if a.len() > 0 && b.len() > 0 && c.len() > 0 && a[0] == b[0] && b[0] == c[0] {
        lemma_name_trans(a.drop_first(), b.drop_first(), c.drop_first());
    }
}

proof fn lemma_insert_name_sorted(s: Seq<Seq<char>>, e: Seq<char>)
    requires
        names_sorted(s),
    ensures
        names_sorted(insert_name(s, e)),
        insert_name(s, e).to_multiset() =~= s.to_multiset().insert(e),
    decreases s.len(),
{
    broadcast use vstd::seq_lib::group_to_multiset_ensures;

    if s.len() == 0 || name_le(s.last(), e) {
        assert forall|i: int, j: int|
            0 <= i < j < s.push(e).len() implies name_le(
            #[trigger] s.push(e)[i],
            #[trigger] s.push(e)[j],
        ) by {
            if j == s.len() {
                if i < s.len() - 1 {
                    assert(name_le(s[i], s[s.len() - 1]));
                    lemma_name_trans(s[i], s.last(), e);
                }
            } else {
                assert(name_le(s[i], s[j]));
            }
        }
    } else {
        let p = s.drop_last();
        assert(names_sorted(p)) by {
            assert forall|i: int, j: int| 0 <= i < j < p.len() implies name_le(
                #[trigger] p[i],
                #[trigger] p[j],
            ) by {
                assert(name_le(s[i], s[j]));
            }
        }
        lemma_insert_name_sorted(p, e);
        let t = insert_name(p, e);
        assert(s =~= p.push(s.last()));
        assert forall|i: int, j: int|
            0 <= i < j < t.push(s.last()).len() implies name_le(
            #[trigger] t.push(s.last())[i],
            #[trigger] t.push(s.last())[j],
        ) by {
            if j == t.len() {
                let x = t[i];
                assert(t.to_multiset().count(x) > 0);
                if x == e {
                    lemma_name_total(s.last(), e);
                } else {
                    assert(p.to_multiset().count(x) > 0);
                    assert(p.contains(x));
                    let k = choose|k: int| 0 <= k < p.len() && p[k] == x;
                    assert(name_le(s[k], s[s.len() - 1]));
                }
            } else {
                assert(t.push(s.last())[i] == t[i]);
                assert(t.push(s.last())[j] == t[j]);
            }
        }
    }
}

proof fn lemma_sort_names(s: Seq<Seq<char>>)
    ensures
        names_sorted(sort_names(s)),
        sort_names(s).to_multiset() =~= s.to_multiset(),
    decreases s.len(),
{
    broadcast use vstd::seq_lib::group_to_multiset_ensures;

    if s.len() > 0 {
        lemma_sort_names(s.drop_last());
        lemma_insert_name_sorted(sort_names(s.drop_last()), s.last());
        assert(s =~= s.drop_last().push(s.last()));
    }
}

/// Each section of a listing shows every entry of its kind exactly as often
/// as it was given, in ascending order of name.
pub proof fn law_listing_sections_sorted(entries: Seq<(String, bool)>, dirs: bool)
    ensures
        names_sorted(sort_names(entry_names(entries, dirs))),
        sort_names(entry_names(entries, dirs)).to_multiset() =~= entry_names(
            entries,
            dirs,
        ).to_multiset(),
{
    lemma_sort_names(entry_names(entries, dirs));
}

/// Asking for line `n` alone, of a file that has it, gives that line.
pub proof fn law_read_single_line(path: Seq<char>, content: Seq<char>, n: usize)
    requires
        1 <= n <= text_lines(content).len(),
    ensures
        read_answer(path, content, Some(n), Some(n)) == text_lines(content)[n - 1],
{
    let lines = text_lines(content);
    assert(lines.subrange(n - 1, n as int) =~= seq![lines[n - 1]]);
}

/// Asking for everything from line 1 on, of a file with lines, gives all its
/// lines joined by line feeds.
pub proof fn law_read_from_first_line(path: Seq<char>, content: Seq<char>)
    requires
        text_lines(content).len() > 0,
    ensures
        read_answer(path, content, Some(1), None) == join_lines(text_lines(content)),
{
    let lines = text_lines(content);
    assert(lines.subrange(0, lines.len() as int) =~= lines);
}

proof fn lemma_name_antisym(a: Seq<char>, b: Seq<char>)
    requires
        name_le(a, b),
        name_le(b, a),
    ensures
        a == b,
    decreases a.len(),
{
    if a.len() > 0 && b.len() > 0 {
        lemma_name_antisym(a.drop_first(), b.drop_first());
        assert(a =~= seq![a[0]] + a.drop_first());
        assert(b =~= seq![b[0]] + b.drop_first());
    } else {
        assert(a =~= b);
    }
}

proof fn lemma_sorted_last_is_max(s: Seq<Seq<char>>, x: Seq<char>)
    requires
        names_sorted(s),
        s.contains(x),
    ensures
        name_le(x, s.last()),
{
    let k = choose|k: int| 0 <= k < s.len() && s[k] == x;
    if k < s.len() - 1 {
        assert(name_le(s[k], s[s.len() - 1]));
    } else {
        lemma_name_total(x, x);
    }
}

proof fn lemma_sorted_unique(a: Seq<Seq<char>>, b: Seq<Seq<char>>)
    requires
        names_sorted(a),
        names_sorted(b),
        a.to_multiset() =~= b.to_multiset(),
    ensures
        a == b,
    decreases a.len(),
{
    broadcast use vstd::seq_lib::group_to_multiset_ensures;

    assert(a.to_multiset().len() == b.to_multiset().len());
    if a.len() == 0 {
        assert(b.len() == 0);
        assert(a =~= b);
    } else {
        assert(b.len() == a.len());
        let x = a.last();
        let y = b.last();
        assert(a.to_multiset().count(x) > 0);
        assert(b.contains(x));
        assert(b.to_multiset().count(y) > 0);
        assert(a.contains(y));
        lemma_sorted_last_is_max(a, y);
        lemma_sorted_last_is_max(b, x);
        lemma_name_antisym(x, y);
        let a1 = a.drop_last();
        let b1 = b.drop_last();
        assert(a =~= a1.push(x));
        assert(b =~= b1.push(x));
        assert(a1.to_multiset() =~= b1.to_multiset()) by {
            assert(a1.push(x).to_multiset() =~= a1.to_multiset().insert(x));
            assert(b1.push(x).to_multiset() =~= b1.to_multiset().insert(x));
            assert forall|z: Seq<char>| a1.to_multiset().count(z) == b1.to_multiset().count(z) by {
                assert(a.to_multiset().count(z) == b.to_multiset().count(z));
            }
        }
        assert(names_sorted(a1)) by {
            assert forall|i: int, j: int| 0 <= i < j < a1.len() implies name_le(
                #[trigger] a1[i],
                #[trigger] a1[j],
            ) by {
                assert(name_le(a[i], a[j]));
            }
        }
        assert(names_sorted(b1)) by {
            assert forall|i: int, j: int| 0 <= i < j < b1.len() implies name_le(
                #[trigger] b1[i],
                #[trigger] b1[j],
            ) by {
                assert(name_le(b[i], b[j]));
            }
        }
        lemma_sorted_unique(a1, b1);
    }
}

/// Each section of a listing is the one ascending arrangement of its
/// entries' names: any sequence in ascending order that holds the same names
/// as often is exactly the section.
pub proof fn law_listing_sections_are_the_sorted_names(
    entries: Seq<(String, bool)>,
    dirs: bool,
    other: Seq<Seq<char>>,
)
    requires
        names_sorted(other),
        other.to_multiset() =~= entry_names(entries, dirs).to_multiset(),
    ensures
        sort_names(entry_names(entries, dirs)) == other,
{
    lemma_sort_names(entry_names(entries, dirs));
    lemma_sorted_unique(sort_names(entry_names(entries, dirs)), other);
}

} // verus!

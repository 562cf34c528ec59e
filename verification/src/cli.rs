//! Pieces of the command line client: query-string encoding, the output
//! format names, and the layout of a plain aligned table.

use vstd::prelude::*;
use crate::text::{lower, chars_of, lower_chars, chars_eq, string_of, push_chars, push_str, views, trim, trim_chars};
use crate::install::{join_path, join_path_exec};

verus! {

/// A byte that stays as it is in a query string: ASCII letters, digits,
/// and `-`, `_`, `.`, `~`.
pub open spec fn unreserved(b: u8) -> bool {
    ||| (65 <= b && b <= 90)
    ||| (97 <= b && b <= 122)
    ||| (48 <= b && b <= 57)
    ||| b == 45
    ||| b == 95
    ||| b == 46
    ||| b == 126
}

/// The upper-case hexadecimal digit of a value below 16.
pub open spec fn hex_upper(d: nat) -> char {
    if d < 10 {
        ((d + 48) as u8) as char
    } else {
        ((d + 55) as u8) as char
    }
}

/// A byte's encoding: itself where unreserved, else `%` and two upper-case
/// hexadecimal digits.
pub open spec fn encode_byte(b: u8) -> Seq<char> {
    if unreserved(b) {
        seq![b as char]
    } else {
        seq!['%', hex_upper((b / 16) as nat), hex_upper((b % 16) as nat)]
    }
}

/// The encoding of a run of bytes, byte by byte.
pub open spec fn encode_bytes(bs: Seq<u8>) -> Seq<char>
    decreases bs.len(),
{
    if bs.len() == 0 {
        Seq::empty()
    } else {
        encode_bytes(bs.drop_last()) + encode_byte(bs.last())
    }
}

fn hex_upper_exec(d: u8) -> (c: char)
    requires
        d < 16,
    ensures
        c == hex_upper(d as nat),
{
    if d < 10 {
        (d + 48) as char
    } else {
        (d + 55) as char
    }
}

/// Percent-encodes a value for a query string: each UTF-8 byte that is not
/// unreserved becomes `%XX`.
pub fn urlencoding_encode(s: &str) -> (r: String)
    ensures
        r@ == encode_bytes(vstd::utf8::encode_utf8(s@)),
{
    let bytes = s.as_bytes();
    let mut out: Vec<char> = Vec::new();
    let mut i: usize = 0;
    while i < bytes.len()
        invariant
            i <= bytes@.len(),
            bytes@ == vstd::utf8::encode_utf8(s@),
            out@ == encode_bytes(bytes@.take(i as int)),
        decreases bytes@.len() - i,
    {
        let b = bytes[i];
        assert(bytes@.take(i + 1).drop_last() =~= bytes@.take(i as int));
        if (65 <= b && b <= 90) || (97 <= b && b <= 122) || (48 <= b && b <= 57) || b == 45 || b
            == 95 || b == 46 || b == 126 {
            out.push(b as char);
        } else {
            out.push('%');
            out.push(hex_upper_exec(b / 16));
            out.push(hex_upper_exec(b % 16));
        }
        i += 1;
        assert(out@ =~= encode_bytes(bytes@.take(i as int)));
    }
    assert(bytes@.take(i as int) =~= bytes@);
    string_of(&out)
}

/// The output formats of the client.
#[derive(Debug, Clone, Copy, PartialEq, Eq)]
pub enum Output {
    Table,
    Json,
    Jsonl,
    Yaml,
}

/// The format a name picks, ignoring ASCII case: `table`, `json`, `jsonl`,
/// `yaml` or `yml`; `None` for any other name.
pub open spec fn output_named(s: Seq<char>) -> Option<Output> {
    let l = lower(s);
    if l == "table"@ {
        Some(Output::Table)
    } else if l == "json"@ {
        Some(Output::Json)
    } else if l == "jsonl"@ {
        Some(Output::Jsonl)
    } else if l == "yaml"@ || l == "yml"@ {
        Some(Output::Yaml)
    } else {
        None
    }
}

/// The refusal of an unknown format name, which it quotes lower-cased.
pub open spec fn msg_unknown_output(s: Seq<char>) -> Seq<char> {
    "unknown output format '"@ + lower(s) + "' (expected table, json, jsonl, yaml)"@
}

impl Output {
    /// The format where none was asked for: a table when standard output
    /// is a terminal, JSON when it is redirected.
    pub fn tty_adaptive_default(stdout_is_terminal: bool) -> (r: Output)
        ensures
            r == (if stdout_is_terminal {
                Output::Table
            } else {
                Output::Json
            }),
    {
        if stdout_is_terminal {
            Output::Table
        } else {
            Output::Json
        }
    }

    /// Reads a format name, ignoring ASCII case.
    pub fn parse_name(s: &str) -> (r: Result<Output, String>)
        ensures
            match output_named(s@) {
                Some(o) => r == Ok::<Output, String>(o),
                None => r matches Err(e) && e@ == msg_unknown_output(s@),
            },
    {
        let c = chars_of(s);
        let l = lower_chars(&c);
        if chars_eq(&l, &chars_of("table")) {
            Ok(Output::Table)
        } else if chars_eq(&l, &chars_of("json")) {
            Ok(Output::Json)
        } else if chars_eq(&l, &chars_of("jsonl")) {
            Ok(Output::Jsonl)
        } else if chars_eq(&l, &chars_of("yaml")) || chars_eq(&l, &chars_of("yml")) {
            Ok(Output::Yaml)
        } else {
            let mut m = chars_of("unknown output format '");
            push_chars(&mut m, &l);
            push_str(&mut m, "' (expected table, json, jsonl, yaml)");
            Err(string_of(&m))
        }
    }

    /// Resolves a format from a name a user gave, ignoring case; `None` if
    /// it names no format.
    pub fn from_user_string(s: &str) -> (r: Option<Output>)
        ensures
            r == output_named(s@),
    {
        match Output::parse_name(s) {
            Ok(o) => Some(o),
            Err(_) => None,
        }
    }
}

impl std::str::FromStr for Output {
    type Err = String;

    fn from_str(s: &str) -> (r: Result<Output, String>)
        ensures
            match output_named(s@) {
                Some(o) => r == Ok::<Output, String>(o),
                None => r matches Err(e) && e@ == msg_unknown_output(s@),
            },
    {
        Output::parse_name(s)
    }
}

/// The number of bytes a text takes in UTF-8, which is what the table
/// measures its columns in.
pub open spec fn text_len(s: Seq<char>) -> nat {
    vstd::utf8::encode_utf8(s).len()
}

/// The width of column `i` after the first `k` rows: the longest of the
/// header and those rows' cells in it, in bytes.
pub open spec fn column_width(headers: Seq<Seq<char>>, rows: Seq<Seq<Seq<char>>>, i: int, k: int) -> nat
    decreases k,
{
    if k <= 0 {
        text_len(headers[i])
    } else {
        let w = column_width(headers, rows, i, k - 1);
        let row = rows[k - 1];
        if i < row.len() && text_len(row[i]) > w {
            text_len(row[i])
        } else {
            w
        }
    }
}

/// A cell padded with spaces on the right to `width` characters.
pub open spec fn pad(cell: Seq<char>, width: nat) -> Seq<char> {
    if cell.len() >= width {
        cell
    } else {
        cell + Seq::new((width - cell.len()) as nat, |_i: int| ' ')
    }
}

/// The cells of a row as printed: each padded to its column's width but
/// the last, as many as both the row and the header have.
pub open spec fn row_cells(cells: Seq<Seq<char>>, widths: Seq<nat>) -> Seq<Seq<char>> {
    let n = if cells.len() < widths.len() { cells.len() } else { widths.len() };
    Seq::new(n, |i: int| if i + 1 == n { cells[i] } else { pad(cells[i], widths[i]) })
}

/// A printed row: its cells joined by two spaces.
pub open spec fn row_line(cells: Seq<Seq<char>>, widths: Seq<nat>) -> Seq<char> {
    crate::text::join_sep(row_cells(cells, widths), "  "@)
}


/// The header names as plain characters.
pub open spec fn header_views(h: Seq<&str>) -> Seq<Seq<char>> {
    h.map_values(|x: &str| x@)
}

/// The rows' cells as plain characters.
pub open spec fn row_views(rows: Seq<Vec<String>>) -> Seq<Seq<Seq<char>>> {
    rows.map_values(|r: Vec<String>| views(r@))
}

/// The widths of the table's columns, one per header.
pub open spec fn table_widths(headers: Seq<Seq<char>>, rows: Seq<Seq<Seq<char>>>) -> Seq<nat> {
    Seq::new(headers.len(), |i: int| column_width(headers, rows, i, rows.len() as int))
}

/// The lines of a table: the header row, then each row, each cell padded to
/// the widest value of its column.
pub open spec fn table_spec(headers: Seq<Seq<char>>, rows: Seq<Seq<Seq<char>>>) -> Seq<Seq<char>> {
    let w = table_widths(headers, rows);
    seq![row_line(headers, w)] + Seq::new(rows.len(), |k: int| row_line(rows[k], w))
}

fn pad_exec(out: &mut Vec<char>, cell: &[char], width: usize)
    ensures
        final(out)@ == old(out)@ + pad(cell@, width as nat),
{
    push_chars(out, cell);
    let mut n: usize = cell.len();
    let ghost base = old(out)@ + cell@;
    while n < width
        invariant
            cell@.len() <= n <= width || (n == cell@.len() && n >= width),
            out@ == base + Seq::new((n - cell@.len()) as nat, |_i: int| ' '),
        decreases width - n,
    {
        out.push(' ');
        n += 1;
        assert(out@ =~= base + Seq::new((n - cell@.len()) as nat, |_i: int| ' '));
    }
    if cell.len() >= width {
        assert(out@ =~= old(out)@ + cell@);
    } else {
        assert(n == width);
    }
}

fn line_exec(cells: &Vec<Vec<char>>, widths: &Vec<usize>) -> (r: String)
    ensures
        r@ == row_line(
            cells@.map_values(|c: Vec<char>| c@),
            widths@.map_values(|w: usize| w as nat),
        ),
{
    let ghost cv = cells@.map_values(|c: Vec<char>| c@);
    let ghost wv = widths@.map_values(|w: usize| w as nat);
    let n = if cells.len() < widths.len() { cells.len() } else { widths.len() };
    let ghost parts = row_cells(cv, wv);
    let mut out: Vec<char> = Vec::new();
    let mut i: usize = 0;
    while i < n
        invariant
            i <= n,
            n == parts.len(),
            n <= cells@.len(),
            n <= widths@.len(),
            cv == cells@.map_values(|c: Vec<char>| c@),
            wv == widths@.map_values(|w: usize| w as nat),
            parts == row_cells(cv, wv),
            out@ == crate::text::join_sep(parts.take(i as int), "  "@),
        decreases n - i,
    {
        if i > 0 {
            push_str(&mut out, "  ");
        }
        if i + 1 == n {
            push_chars(&mut out, &cells[i]);
        } else {
            pad_exec(&mut out, &cells[i], widths[i]);
        }
        i += 1;
        proof {
            let now = parts.take(i as int);
            assert(now.drop_last() =~= parts.take(i - 1));
            assert(now.last() == parts[i - 1]);
            if i == 1 {
                assert(now =~= seq![parts[0]]);
            }
        }
    }
    assert(parts.take(i as int) =~= parts);
    string_of(&out)
}

/// The lines that print a table: the header row, then the rows, each cell
/// padded to its column's widest value; the last cell of a line is not
/// padded, and cells are separated by two spaces.
pub fn table_lines(headers: &[&str], rows: &[Vec<String>]) -> (r: Vec<String>)
    ensures
        views(r@) == table_spec(header_views(headers@), row_views(rows@)),
{
    let ghost hv = header_views(headers@);
    let ghost rv = row_views(rows@);
    let mut widths: Vec<usize> = Vec::new();
    let mut h: usize = 0;
    while h < headers.len()
        invariant
            h <= headers@.len(),
            hv == header_views(headers@),
            widths@.len() == h,
            forall|i: int| 0 <= i < h ==> widths@[i] as nat == column_width(hv, rv, i, 0),
        decreases headers@.len() - h,
    {
        let b = headers[h].as_bytes();
        assert(hv[h as int] == headers@[h as int]@);
        widths.push(b.len());
        h += 1;
    }
    let mut k: usize = 0;
    while k < rows.len()
        invariant
            k <= rows@.len(),
            hv == header_views(headers@),
            rv == row_views(rows@),
            widths@.len() == headers@.len(),
            forall|i: int| 0 <= i < widths@.len() ==> widths@[i] as nat == column_width(hv, rv, i, k as int),
        decreases rows@.len() - k,
    {
        let row = &rows[k];
        let mut i: usize = 0;
        while i < row.len()
            invariant
                k < rows@.len(),
                row == rows@[k as int],
                rv == row_views(rows@),
                i <= row@.len(),
                widths@.len() == headers@.len(),
                forall|j: int| 0 <= j < widths@.len() ==> widths@[j] as nat == (if j < i {
                    column_width(hv, rv, j, k + 1)
                } else {
                    column_width(hv, rv, j, k as int)
                }),
            decreases row@.len() - i,
        {
            assert(rv[k as int] == views(row@));
            assert(views(row@)[i as int] == row@[i as int]@);
            let len = row[i].as_str().as_bytes().len();
            assert(len == text_len(rv[k as int][i as int]));
            if i < widths.len() && len > widths[i] {
                widths.set(i, len);
            }
            assert(i < widths@.len() ==> widths@[i as int] as nat == column_width(hv, rv, i as int, k + 1));
            i += 1;
        }
        proof {
            assert forall|j: int| 0 <= j < widths@.len() implies widths@[j] as nat == column_width(
                hv,
                rv,
                j,
                k + 1,
            ) by {
                if j >= row@.len() {
                    assert(rv[k as int] == views(row@));
                }
            }
        }
        k += 1;
    }
    let ghost wv = widths@.map_values(|w: usize| w as nat);
    assert(wv =~= table_widths(hv, rv));
    let mut lines: Vec<String> = Vec::new();
    let mut hc: Vec<Vec<char>> = Vec::new();
    let mut j: usize = 0;
    while j < headers.len()
        invariant
            j <= headers@.len(),
            hv == header_views(headers@),
            hc@.len() == j,
            forall|q: int| 0 <= q < j ==> (#[trigger] hc@[q])@ == hv[q],
        decreases headers@.len() - j,
    {
        hc.push(chars_of(headers[j]));
        j += 1;
    }
    assert(hc@.map_values(|c: Vec<char>| c@) =~= hv);
    lines.push(line_exec(&hc, &widths));
    let mut k2: usize = 0;
    while k2 < rows.len()
        invariant
            k2 <= rows@.len(),
            rv == row_views(rows@),
            wv == widths@.map_values(|w: usize| w as nat),
            wv == table_widths(hv, rv),
            views(lines@) == seq![row_line(hv, wv)] + Seq::new(k2 as nat, |q: int| row_line(rv[q], wv)),
        decreases rows@.len() - k2,
    {
        let row = &rows[k2];
        let mut cc: Vec<Vec<char>> = Vec::new();
        let mut c: usize = 0;
        while c < row.len()
            invariant
                c <= row@.len(),
                cc@.len() == c,
                forall|q: int| 0 <= q < c ==> (#[trigger] cc@[q])@ == row@[q]@,
            decreases row@.len() - c,
        {
            cc.push(chars_of(row[c].as_str()));
            c += 1;
        }
        assert(cc@.map_values(|x: Vec<char>| x@) =~= rv[k2 as int]);
        let ln = line_exec(&cc, &widths);
        let ghost before = lines@;
        lines.push(ln);
        assert(views(lines@) =~= views(before).push(row_line(rv[k2 as int], wv)));
        k2 += 1;
        assert(views(lines@) =~= seq![row_line(hv, wv)] + Seq::new(k2 as nat, |q: int| row_line(rv[q], wv)));
    }
    assert(views(lines@) =~= table_spec(hv, rv));
    lines
}


/// A config file's settings; each may be missing.
#[derive(Debug, Clone, PartialEq, Eq)]
pub struct ConfigFile {
    pub engine_url: Option<String>,
    /// The API key itself.
    pub api_key: Option<String>,
    /// A file holding the API key; it wins over `api_key`.
    pub api_key_file: Option<String>,
    pub namespace: Option<String>,
    /// The default output format.
    pub output: Option<String>,
}

impl Default for ConfigFile {
    fn default() -> (c: Self)
        ensures
            c.engine_url is None && c.api_key is None && c.api_key_file is None && c.namespace is None
                && c.output is None,
    {
        ConfigFile { engine_url: None, api_key: None, api_key_file: None, namespace: None, output: None }
    }
}

/// A value that may be missing, as plain characters.
pub open spec fn opt_chars(o: Option<&str>) -> Option<Seq<char>> {
    match o {
        Some(s) => Some(s@),
        None => None,
    }
}

/// Where a config file is looked for when none is named, in order: under
/// `XDG_CONFIG_HOME`, under `HOME`, then `/etc/assay/config.yaml`.
pub open spec fn discovery_spec(xdg: Option<Seq<char>>, home: Option<Seq<char>>) -> Seq<Seq<char>> {
    let a: Seq<Seq<char>> = match xdg {
        Some(x) => seq![join_path(x, "assay/config.yaml"@)],
        None => Seq::empty(),
    };
    let b: Seq<Seq<char>> = match home {
        Some(h) => seq![join_path(h, ".config/assay/config.yaml"@)],
        None => Seq::empty(),
    };
    a + b + seq!["/etc/assay/config.yaml"@]
}

/// The paths a config file is looked for at, given `XDG_CONFIG_HOME` and
/// `HOME` where they are set.
pub fn discovery_paths(xdg: Option<&str>, home: Option<&str>) -> (r: Vec<String>)
    ensures
        views(r@) == discovery_spec(opt_chars(xdg), opt_chars(home)),
{
    let mut v: Vec<String> = Vec::new();
    if let Some(x) = xdg {
        v.push(join_path_exec(x, "assay/config.yaml"));
    }
    if let Some(h) = home {
        v.push(join_path_exec(h, ".config/assay/config.yaml"));
    }
    v.push(string_of(&chars_of("/etc/assay/config.yaml")));
    assert(views(v@) =~= discovery_spec(opt_chars(xdg), opt_chars(home)));
    v
}

/// Resolves the API key: the trimmed contents of `api_key_file` when the
/// config names one (the caller reads it and hands its text over), else
/// the literal `api_key`, if any.
pub fn resolve_api_key(cfg: &ConfigFile, file_text: Option<&str>) -> (r: Option<String>)
    requires
        cfg.api_key_file is Some <==> file_text is Some,
    ensures
        match file_text {
            Some(t) => r matches Some(k) && k@ == trim(t@),
            None => match cfg.api_key {
                Some(k) => r matches Some(x) && x@ == k@,
                None => r is None,
            },
        },
{
    match file_text {
        Some(t) => Some(string_of(&trim_chars(&chars_of(t)))),
        None => match &cfg.api_key {
            Some(k) => Some(string_of(&chars_of(k.as_str()))),
            None => None,
        },
    }
}

/// Where a JSON argument comes from.
#[derive(Debug, Clone, PartialEq, Eq)]
pub enum JsonSource {
    /// `-`: standard input.
    Stdin,
    /// `@path`: the file at the path.
    File(String),
    /// Anything else: the argument itself.
    Literal,
}

/// Where a JSON argument comes from: `-` is standard input, `@path` a file,
/// anything else the text itself.
pub fn json_source(raw: &str) -> (r: JsonSource)
    ensures
        raw@ == "-"@ ==> r == JsonSource::Stdin,
        raw@ != "-"@ && raw@.len() > 0 && raw@[0] == '@' ==> (r matches JsonSource::File(p) && p@ == raw@.skip(1)),
        raw@ != "-"@ && !(raw@.len() > 0 && raw@[0] == '@') ==> r == JsonSource::Literal,
{
    let c = chars_of(raw);
    if chars_eq(&c, &chars_of("-")) {
        return JsonSource::Stdin;
    }
    if c.len() > 0 && c[0] == '@' {
        let p = crate::text::sub_chars(&c, 1, c.len());
        assert(p@ =~= raw@.skip(1));
        return JsonSource::File(string_of(&p));
    }
    JsonSource::Literal
}

} // verus!

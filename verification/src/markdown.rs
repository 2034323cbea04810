use crate::text::{
    char_is_whitespace, chars_of, is_whitespace, string_of_chars, trim_start, trim_start_index,
};
use crate::tree::{line_texts, render_repo_tree, tree_lines};
use crate::{FileResult, FunctionExport, RenderConfig, RenderProfile, RunOutput, TypeExport};
use vstd::prelude::*;
use vstd::string::*;

verus! {

/// The decimal digit for a number below ten.
pub open spec fn digit(d: nat) -> char {
    if d == 0 {
        '0'
    } else if d == 1 {
        '1'
    } else if d == 2 {
        '2'
    } else if d == 3 {
        '3'
    } else if d == 4 {
        '4'
    } else if d == 5 {
        '5'
    } else if d == 6 {
        '6'
    } else if d == 7 {
        '7'
    } else if d == 8 {
        '8'
    } else {
        '9'
    }
}

/// A number written in decimal.
pub open spec fn decimal(n: nat) -> Seq<char>
    decreases n,
{
    if n < 10 {
        seq![digit(n)]
    } else {
        decimal(n / 10).push(digit(n % 10))
    }
}

fn digit_char(d: usize) -> (c: char)
    requires
        d < 10,
    ensures
        c == digit(d as nat),
{
    if d == 0 {
        '0'
    } else if d == 1 {
        '1'
    } else if d == 2 {
        '2'
    } else if d == 3 {
        '3'
    } else if d == 4 {
        '4'
    } else if d == 5 {
        '5'
    } else if d == 6 {
        '6'
    } else if d == 7 {
        '7'
    } else if d == 8 {
        '8'
    } else {
        '9'
    }
}

/// Writes `n` in decimal at the end of `out`.
pub fn push_decimal(out: &mut Vec<char>, n: usize)
    ensures
        final(out)@ == old(out)@ + decimal(n as nat),
    decreases n,
{
    if n >= 10 {
        push_decimal(out, n / 10);
    }
    out.push(digit_char(n % 10));
    assert(out@ =~= old(out)@ + decimal(n as nat));
}

/// Writes the characters of `s` at the end of `out`.
pub fn push_str(out: &mut Vec<char>, s: &str)
    ensures
        final(out)@ == old(out)@ + s@,
{
    let mut chars = chars_of(s);
    out.append(&mut chars);
}

/// Writes `chars` at the end of `out`.
pub fn push_chars(out: &mut Vec<char>, chars: &Vec<char>)
    ensures
        final(out)@ == old(out)@ + chars@,
{
    let mut i: usize = 0;
    while i < chars.len()
        invariant
            i <= chars.len(),
            out@ == old(out)@ + chars@.subrange(0, i as int),
        decreases chars.len() - i,
    {
        out.push(chars[i]);
        assert(out@ =~= old(out)@ + chars@.subrange(0, i + 1));
        i = i + 1;
    }
    assert(chars@.subrange(0, chars.len() as int) =~= chars@);
}

/// `s[at..]` with each run of whitespace between two words turned into one
/// space and the whitespace at the end left out; `started` says whether a
/// word came before, `gap` whether whitespace came since.
pub open spec fn squeezed(s: Seq<char>, at: int, started: bool, gap: bool) -> Seq<char>
    decreases s.len() - at,
{
    if at < 0 || at >= s.len() {
        Seq::empty()
    } else if is_whitespace(s[at]) {
        squeezed(s, at + 1, started, true)
    } else if started && gap {
        seq![' ', s[at]] + squeezed(s, at + 1, true, false)
    } else {
        seq![s[at]] + squeezed(s, at + 1, true, false)
    }
}

/// The words of `s` with one space between each two.
pub open spec fn normalized(s: Seq<char>) -> Seq<char> {
    squeezed(s, 0, false, false)
}

/// The words of `input` with one space between each two.
pub fn normalize_whitespace(input: &Vec<char>) -> (out: Vec<char>)
    ensures
        out@ == normalized(input@),
{
    let mut out: Vec<char> = Vec::new();
    let mut started = false;
    let mut gap = false;
    let mut i: usize = 0;
    while i < input.len()
        invariant
            i <= input.len(),
            normalized(input@) == out@ + squeezed(input@, i as int, started, gap),
        decreases input.len() - i,
    {
        let c = input[i];
        let ghost before = out@;
        if char_is_whitespace(c) {
            gap = true;
        } else {
            if started && gap {
                out.push(' ');
            }
            out.push(c);
            assert(out@ + squeezed(input@, i + 1, true, false) =~= before + squeezed(
                input@,
                i as int,
                started,
                gap,
            ));
            started = true;
            gap = false;
        }
        i = i + 1;
    }
    assert(out@ + Seq::<char>::empty() =~= out@);
    out
}

/// The place of the `)` that closes the parentheses open at `at`, `depth` of
/// them; a `)` with none open closes too.
pub open spec fn closing(s: Seq<char>, at: int, depth: nat) -> Option<int>
    decreases s.len() - at,
{
    if at < 0 || at >= s.len() {
        None
    } else if s[at] == '(' {
        closing(s, at + 1, depth + 1)
    } else if s[at] == ')' {
        if depth <= 1 {
            Some(at)
        } else {
            closing(s, at + 1, (depth - 1) as nat)
        }
    } else {
        closing(s, at + 1, depth)
    }
}

/// The parameter list of a signature that starts with `name`: what follows
/// the name, without the whitespace before it, from its `(` to the `)` that
/// closes it. `None` where the signature does not start with the name, where
/// no `(` follows, or where it is never closed.
pub open spec fn parameters_of(signature: Seq<char>, name: Seq<char>) -> Option<Seq<char>> {
    if !name.is_prefix_of(signature) {
        None
    } else {
        let rest = trim_start(signature.subrange(name.len() as int, signature.len() as int));
        if rest.len() == 0 || rest[0] != '(' {
            None
        } else {
            match closing(rest, 0, 0) {
                Some(at) => Some(rest.subrange(0, at + 1)),
                None => None,
            }
        }
    }
}

fn starts_with(s: &Vec<char>, prefix: &Vec<char>) -> (r: bool)
    ensures
        r == prefix@.is_prefix_of(s@),
{
    if prefix.len() > s.len() {
        return false;
    }
    let mut i: usize = 0;
    while i < prefix.len()
        invariant
            i <= prefix.len() <= s.len(),
            forall|k: int| 0 <= k < i ==> s@[k] == prefix@[k],
        decreases prefix.len() - i,
    {
        if s[i] != prefix[i] {
            assert(s@.subrange(0, prefix@.len() as int)[i as int] != prefix@[i as int]);
            return false;
        }
        i = i + 1;
    }
    assert(s@.subrange(0, prefix@.len() as int) =~= prefix@);
    true
}

fn copy_range(s: &Vec<char>, from: usize, to: usize) -> (out: Vec<char>)
    requires
        from <= to <= s.len(),
    ensures
        out@ == s@.subrange(from as int, to as int),
{
    let mut out: Vec<char> = Vec::new();
    let mut i: usize = from;
    while i < to
        invariant
            from <= i <= to <= s.len(),
            out@ == s@.subrange(from as int, i as int),
        decreases to - i,
    {
        out.push(s[i]);
        assert(out@ =~= s@.subrange(from as int, i + 1));
        i = i + 1;
    }
    out
}

/// The parameter list of a signature that starts with `name`.
pub fn extract_parameters(signature: &Vec<char>, name: &Vec<char>) -> (out: Option<Vec<char>>)
    ensures
        match out {
            Some(p) => parameters_of(signature@, name@) == Some(p@),
            None => parameters_of(signature@, name@) is None,
        },
{
    if !starts_with(signature, name) {
        return None;
    }
    let tail = copy_range(signature, name.len(), signature.len());
    let skip = trim_start_index(&tail);
    let rest = copy_range(&tail, skip, tail.len());
    if rest.len() == 0 || rest[0] != '(' {
        return None;
    }
    let mut depth: usize = 0;
    let mut i: usize = 0;
    while i < rest.len()
        invariant
            i <= rest.len(),
            depth <= i,
            name@.is_prefix_of(signature@),
            rest@ == trim_start(signature@.subrange(name@.len() as int, signature@.len() as int)),
            rest@.len() > 0 && rest@[0] == '(',
            closing(rest@, 0, 0) == closing(rest@, i as int, depth as nat),
        decreases rest.len() - i,
    {
        let c = rest[i];
        if c == '(' {
            depth = depth + 1;
        } else if c == ')' {
            if depth <= 1 {
                return Some(copy_range(&rest, 0, i + 1));
            }
            depth = depth - 1;
        }
        i = i + 1;
    }
    None
}

/// The sign before a line number.
pub open spec fn line_mark() -> Seq<char> {
    " @L"@
}

/// What stands for a function in the list of a file.
pub open spec fn function_entry(export: FunctionExport, profile: RenderProfile) -> Seq<char> {
    match profile {
        RenderProfile::Compact => export.name@,
        RenderProfile::Balanced => match parameters_of(export.signature@, export.name@) {
            Some(p) => export.name@ + normalized(p),
            None => export.name@,
        },
        RenderProfile::Detailed => normalized(export.signature@) + line_mark() + decimal(
            export.line as nat,
        ),
    }
}

/// What stands for a type in the list of a file.
pub open spec fn type_entry(export: TypeExport, profile: RenderProfile) -> Seq<char> {
    match profile {
        RenderProfile::Detailed => export.name@ + line_mark() + decimal(export.line as nat),
        _ => export.name@,
    }
}

/// What stands for a function in the list of a file.
pub fn format_function_entry(export: &FunctionExport, profile: RenderProfile) -> (out: Vec<char>)
    ensures
        out@ == function_entry(*export, profile),
{
    let name = chars_of(export.name.as_str());
    match profile {
        RenderProfile::Compact => name,
        RenderProfile::Balanced => {
            let signature = chars_of(export.signature.as_str());
            match extract_parameters(&signature, &name) {
                Some(p) => {
                    let mut out = name;
                    let squeezed = normalize_whitespace(&p);
                    push_chars(&mut out, &squeezed);
                    out
                },
                None => name,
            }
        },
        RenderProfile::Detailed => {
            let signature = chars_of(export.signature.as_str());
            let mut out = normalize_whitespace(&signature);
            push_str(&mut out, " @L");
            push_decimal(&mut out, export.line);
            out
        },
    }
}

/// What stands for a type in the list of a file.
pub fn format_type_entry(export: &TypeExport, profile: RenderProfile) -> (out: Vec<char>)
    ensures
        out@ == type_entry(*export, profile),
{
    let mut out = chars_of(export.name.as_str());
    match profile {
        RenderProfile::Detailed => {
            push_str(&mut out, " @L");
            push_decimal(&mut out, export.line);
        },
        _ => {},
    }
    out
}

/// An item of a list: the text between two backticks behind a dash.
pub open spec fn bullet(text: Seq<char>) -> Seq<char> {
    "- `"@ + text + "`"@
}

/// The heading of a file: its path between two backticks.
pub open spec fn file_heading(path: Seq<char>) -> Seq<char> {
    "### `"@ + path + "`"@
}

/// The items for the first `upto` functions of a file.
pub open spec fn function_bullets(file: FileResult, profile: RenderProfile, upto: int) -> Seq<
    Seq<char>,
>
    decreases upto,
{
    if upto <= 0 || upto > file.function_exports@.len() {
        Seq::empty()
    } else {
        function_bullets(file, profile, upto - 1).push(
            bullet(function_entry(file.function_exports@[upto - 1], profile)),
        )
    }
}

/// The items for the first `upto` types of a file.
pub open spec fn type_bullets(file: FileResult, profile: RenderProfile, upto: int) -> Seq<Seq<char>>
    decreases upto,
{
    if upto <= 0 || upto > file.type_exports@.len() {
        Seq::empty()
    } else {
        type_bullets(file, profile, upto - 1).push(
            bullet(type_entry(file.type_exports@[upto - 1], profile)),
        )
    }
}

/// The lines for the functions of one file: an empty line, the heading and
/// the items; nothing for a file without functions.
pub open spec fn function_block(file: FileResult, profile: RenderProfile) -> Seq<Seq<char>> {
    if file.function_exports@.len() == 0 {
        Seq::empty()
    } else {
        seq![Seq::empty(), file_heading(file.file_path@)] + function_bullets(
            file,
            profile,
            file.function_exports@.len() as int,
        )
    }
}

/// The lines for the types of one file.
pub open spec fn type_block(file: FileResult, profile: RenderProfile) -> Seq<Seq<char>> {
    if file.type_exports@.len() == 0 {
        Seq::empty()
    } else {
        seq![Seq::empty(), file_heading(file.file_path@)] + type_bullets(
            file,
            profile,
            file.type_exports@.len() as int,
        )
    }
}

/// The line for the failure of one file; nothing for a file that was read.
pub open spec fn error_block(file: FileResult) -> Seq<Seq<char>> {
    match file.parse_error {
        Some(message) => seq!["- `"@ + file.file_path@ + "`: "@ + message@],
        None => Seq::empty(),
    }
}

/// The lines for the functions of the files, file after file.
pub open spec fn function_blocks(files: Seq<FileResult>, profile: RenderProfile) -> Seq<Seq<char>>
    decreases files.len(),
{
    if files.len() == 0 {
        Seq::empty()
    } else {
        function_blocks(files.drop_last(), profile) + function_block(files.last(), profile)
    }
}

/// The lines for the types of the files, file after file.
pub open spec fn type_blocks(files: Seq<FileResult>, profile: RenderProfile) -> Seq<Seq<char>>
    decreases files.len(),
{
    if files.len() == 0 {
        Seq::empty()
    } else {
        type_blocks(files.drop_last(), profile) + type_block(files.last(), profile)
    }
}

/// The lines for the failures of the files, file after file.
pub open spec fn error_blocks(files: Seq<FileResult>) -> Seq<Seq<char>>
    decreases files.len(),
{
    if files.len() == 0 {
        Seq::empty()
    } else {
        error_blocks(files.drop_last()) + error_block(files.last())
    }
}

/// `blocks`, or the one line `otherwise` where there are none.
pub open spec fn or_line(blocks: Seq<Seq<char>>, otherwise: Seq<char>) -> Seq<Seq<char>> {
    if blocks.len() == 0 {
        seq![otherwise]
    } else {
        blocks
    }
}

/// The lines of the rendering: the drawing of the tree, the functions of
/// each file, the types of each file where the configuration asks for them,
/// and the failures where there are any.
pub open spec fn markdown_lines(output: RunOutput, config: RenderConfig) -> Seq<Seq<char>> {
    head_lines(output, config) + type_lines(output, config) + error_lines(output)
}

/// The lines, each with a line feed behind it.
pub open spec fn joined_lines(lines: Seq<Seq<char>>) -> Seq<char>
    decreases lines.len(),
{
    if lines.len() == 0 {
        Seq::empty()
    } else {
        joined_lines(lines.drop_last()) + lines.last() + seq!['\n']
    }
}

/// The rendering of a run.
pub open spec fn markdown_of(output: RunOutput, config: RenderConfig) -> Seq<char> {
    joined_lines(markdown_lines(output, config))
}

fn push_line(lines: &mut Vec<Vec<char>>, text: &str)
    ensures
        line_texts(final(lines)@) == line_texts(old(lines)@).push(text@),
{
    lines.push(chars_of(text));
    assert(line_texts(lines@) =~= line_texts(old(lines)@).push(text@));
}

fn push_empty_line(lines: &mut Vec<Vec<char>>)
    ensures
        line_texts(final(lines)@) == line_texts(old(lines)@).push(Seq::empty()),
{
    let line: Vec<char> = Vec::new();
    lines.push(line);
    assert(line_texts(lines@) =~= line_texts(old(lines)@).push(Seq::empty()));
}

fn push_bullet(lines: &mut Vec<Vec<char>>, text: &Vec<char>)
    ensures
        line_texts(final(lines)@) == line_texts(old(lines)@).push(bullet(text@)),
{
    let mut line = chars_of("- `");
    push_chars(&mut line, text);
    push_str(&mut line, "`");
    lines.push(line);
    assert(line_texts(lines@) =~= line_texts(old(lines)@).push(bullet(text@)));
}

fn push_heading(lines: &mut Vec<Vec<char>>, path: &str)
    ensures
        line_texts(final(lines)@) == line_texts(old(lines)@) + seq![
            Seq::empty(),
            file_heading(path@),
        ],
{
    let empty: Vec<char> = Vec::new();
    lines.push(empty);
    let mut line = chars_of("### `");
    push_str(&mut line, path);
    push_str(&mut line, "`");
    lines.push(line);
    assert(line_texts(lines@) =~= line_texts(old(lines)@) + seq![
        Seq::empty(),
        file_heading(path@),
    ]);
}

fn push_function_block(lines: &mut Vec<Vec<char>>, file: &FileResult, profile: RenderProfile)
    ensures
        line_texts(final(lines)@) == line_texts(old(lines)@) + function_block(*file, profile),
{
    if file.function_exports.len() == 0 {
        assert(line_texts(lines@) + Seq::<Seq<char>>::empty() =~= line_texts(lines@));
        return ;
    }
    push_heading(lines, file.file_path.as_str());
    let ghost start = line_texts(lines@);
    let mut i: usize = 0;
    assert(start + Seq::<Seq<char>>::empty() =~= start);
    while i < file.function_exports.len()
        invariant
            i <= file.function_exports.len(),
            line_texts(lines@) == start + function_bullets(*file, profile, i as int),
        decreases file.function_exports.len() - i,
    {
        let entry = format_function_entry(&file.function_exports[i], profile);
        push_bullet(lines, &entry);
        assert(line_texts(lines@) =~= start + function_bullets(*file, profile, i + 1));
        i = i + 1;
    }
    assert(line_texts(lines@) =~= line_texts(old(lines)@) + function_block(*file, profile));
}

fn push_type_block(lines: &mut Vec<Vec<char>>, file: &FileResult, profile: RenderProfile)
    ensures
        line_texts(final(lines)@) == line_texts(old(lines)@) + type_block(*file, profile),
{
    if file.type_exports.len() == 0 {
        assert(line_texts(lines@) + Seq::<Seq<char>>::empty() =~= line_texts(lines@));
        return ;
    }
    push_heading(lines, file.file_path.as_str());
    let ghost start = line_texts(lines@);
    let mut i: usize = 0;
    assert(start + Seq::<Seq<char>>::empty() =~= start);
    while i < file.type_exports.len()
        invariant
            i <= file.type_exports.len(),
            line_texts(lines@) == start + type_bullets(*file, profile, i as int),
        decreases file.type_exports.len() - i,
    {
        let entry = format_type_entry(&file.type_exports[i], profile);
        push_bullet(lines, &entry);
        assert(line_texts(lines@) =~= start + type_bullets(*file, profile, i + 1));
        i = i + 1;
    }
    assert(line_texts(lines@) =~= line_texts(old(lines)@) + type_block(*file, profile));
}

fn push_error_block(lines: &mut Vec<Vec<char>>, file: &FileResult)
    ensures
        line_texts(final(lines)@) == line_texts(old(lines)@) + error_block(*file),
{
    match &file.parse_error {
        Some(message) => {
            let mut line = chars_of("- `");
            push_str(&mut line, file.file_path.as_str());
            push_str(&mut line, "`: ");
            push_str(&mut line, message.as_str());
            lines.push(line);
            assert(line_texts(lines@) =~= line_texts(old(lines)@) + error_block(*file));
        },
        None => {
            assert(line_texts(lines@) + Seq::<Seq<char>>::empty() =~= line_texts(lines@));
        },
    }
}

/// Which of the three lists of a file a pass writes.
#[derive(Clone, Copy, PartialEq, Eq, Structural)]
enum Part {
    Functions,
    Types,
    Errors,
}

spec fn blocks_of(files: Seq<FileResult>, profile: RenderProfile, part: Part) -> Seq<Seq<char>> {
    match part {
        Part::Functions => function_blocks(files, profile),
        Part::Types => type_blocks(files, profile),
        Part::Errors => error_blocks(files),
    }
}

fn file_blocks(files: &Vec<FileResult>, profile: RenderProfile, part: Part) -> (out: Vec<Vec<char>>)
    ensures
        line_texts(out@) == blocks_of(files@, profile, part),
{
    let mut out: Vec<Vec<char>> = Vec::new();
    let mut i: usize = 0;
    assert(line_texts(out@) =~= Seq::empty());
    assert(files@.subrange(0, 0) =~= Seq::empty());
    while i < files.len()
        invariant
            i <= files.len(),
            line_texts(out@) == blocks_of(files@.subrange(0, i as int), profile, part),
        decreases files.len() - i,
    {
        assert(files@.subrange(0, i + 1).drop_last() =~= files@.subrange(0, i as int));
        assert(files@.subrange(0, i + 1).last() == files@[i as int]);
        match part {
            Part::Functions => push_function_block(&mut out, &files[i], profile),
            Part::Types => push_type_block(&mut out, &files[i], profile),
            Part::Errors => push_error_block(&mut out, &files[i]),
        }
        i = i + 1;
    }
    assert(files@.subrange(0, files.len() as int) =~= files@);
    out
}

fn push_lines(lines: &mut Vec<Vec<char>>, more: Vec<Vec<char>>)
    ensures
        line_texts(final(lines)@) == line_texts(old(lines)@) + line_texts(more@),
{
    let mut more = more;
    let ghost added = more@;
    lines.append(&mut more);
    assert(line_texts(lines@) =~= line_texts(old(lines)@) + line_texts(added));
}

fn join_lines(lines: &Vec<Vec<char>>) -> (out: Vec<char>)
    ensures
        out@ == joined_lines(line_texts(lines@)),
{
    let mut out: Vec<char> = Vec::new();
    let mut i: usize = 0;
    assert(line_texts(lines@).subrange(0, 0) =~= Seq::empty());
    while i < lines.len()
        invariant
            i <= lines.len(),
            out@ == joined_lines(line_texts(lines@).subrange(0, i as int)),
        decreases lines.len() - i,
    {
        assert(line_texts(lines@).subrange(0, i + 1).drop_last() =~= line_texts(lines@).subrange(
            0,
            i as int,
        ));
        assert(line_texts(lines@).subrange(0, i + 1).last() == lines@[i as int]@);
        push_chars(&mut out, &lines[i]);
        out.push('\n');
        i = i + 1;
    }
    assert(line_texts(lines@).subrange(0, lines.len() as int) =~= line_texts(lines@));
    out
}

/// The lines down to the functions.
pub open spec fn head_lines(output: RunOutput, config: RenderConfig) -> Seq<Seq<char>> {
    seq!["# Repository Structure"@, "```text"@] + tree_lines(output.repo_entries@) + seq![
        "```"@,
        Seq::empty(),
        "# Exported Functions"@,
    ] + or_line(
        function_blocks(output.file_results@, config.profile),
        "No exported functions found."@,
    )
}

/// The lines of the types, where the configuration asks for them.
pub open spec fn type_lines(output: RunOutput, config: RenderConfig) -> Seq<Seq<char>> {
    if config.include_types {
        seq![Seq::empty(), "# Type Inventory"@] + or_line(
            type_blocks(output.file_results@, config.profile),
            "No exported types or interfaces found."@,
        )
    } else {
        Seq::empty()
    }
}

/// The lines of the failures, where there are any.
pub open spec fn error_lines(output: RunOutput) -> Seq<Seq<char>> {
    if error_blocks(output.file_results@).len() == 0 {
        Seq::empty()
    } else {
        seq![Seq::empty(), "## Parse Errors"@] + error_blocks(output.file_results@)
    }
}

fn push_head(lines: &mut Vec<Vec<char>>, output: &RunOutput, config: RenderConfig)
    ensures
        line_texts(final(lines)@) == line_texts(old(lines)@) + head_lines(*output, config),
{
    let ghost start = line_texts(lines@);
    push_line(lines, "# Repository Structure");
    push_line(lines, "```text");
    push_lines(lines, render_repo_tree(&output.repo_entries));
    push_line(lines, "```");
    push_empty_line(lines);
    push_line(lines, "# Exported Functions");
    let ghost middle = line_texts(lines@);
    assert(middle =~= start + (seq!["# Repository Structure"@, "```text"@] + tree_lines(
        output.repo_entries@,
    ) + seq!["```"@, Seq::empty(), "# Exported Functions"@]));
    let functions = file_blocks(&output.file_results, config.profile, Part::Functions);
    if functions.len() == 0 {
        push_line(lines, "No exported functions found.");
    } else {
        push_lines(lines, functions);
    }
    assert(line_texts(lines@) =~= middle + or_line(
        function_blocks(output.file_results@, config.profile),
        "No exported functions found."@,
    ));
    assert(line_texts(lines@) =~= start + head_lines(*output, config));
}

fn push_types(lines: &mut Vec<Vec<char>>, output: &RunOutput, config: RenderConfig)
    ensures
        line_texts(final(lines)@) == line_texts(old(lines)@) + type_lines(*output, config),
{
    let ghost start = line_texts(lines@);
    if config.include_types {
        push_empty_line(lines);
        push_line(lines, "# Type Inventory");
        let types = file_blocks(&output.file_results, config.profile, Part::Types);
        if types.len() == 0 {
            push_line(lines, "No exported types or interfaces found.");
        } else {
            push_lines(lines, types);
        }
        assert(line_texts(lines@) =~= start + type_lines(*output, config));
    } else {
        assert(start + Seq::<Seq<char>>::empty() =~= start);
    }
}

fn push_errors(lines: &mut Vec<Vec<char>>, output: &RunOutput)
    ensures
        line_texts(final(lines)@) == line_texts(old(lines)@) + error_lines(*output),
{
    let ghost start = line_texts(lines@);
    let errors = file_blocks(&output.file_results, RenderProfile::Compact, Part::Errors);
    if errors.len() > 0 {
        push_empty_line(lines);
        push_line(lines, "## Parse Errors");
        push_lines(lines, errors);
        assert(line_texts(lines@) =~= start + error_lines(*output));
    } else {
        assert(start + Seq::<Seq<char>>::empty() =~= start);
    }
}

/// The rendering of a run, as the configuration asks for it.
pub fn render_markdown_with_config(output: &RunOutput, config: RenderConfig) -> (out: String)
    ensures
        out@ == markdown_of(*output, config),
{
    let mut lines: Vec<Vec<char>> = Vec::new();
    assert(line_texts(lines@) =~= Seq::empty());
    push_head(&mut lines, output, config);
    push_types(&mut lines, output, config);
    push_errors(&mut lines, output);
    assert(line_texts(lines@) =~= markdown_lines(*output, config));
    let text = join_lines(&lines);
    string_of_chars(text.as_slice())
}

/// The rendering of a run with the usual configuration.
pub fn render_markdown(output: &RunOutput) -> (out: String)
    ensures
        out@ == markdown_of(
            *output,
            (RenderConfig { profile: RenderProfile::Balanced, include_types: true, tree_depth: 10 }),
        ),
{
    render_markdown_with_config(output, RenderConfig::default())
}

} // verus!

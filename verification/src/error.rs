//! Why a conversion is given up, and what is said about it.

use vstd::prelude::*;

use crate::number::{decimal, decimal_string};
use crate::text::{push_text, texts};
use crate::tex::{conventional_file_names, conventional_names};

verus! {

/// Why a conversion is given up.
#[derive(Debug)]
pub enum ConvertError {
    /// The program was called with too few or too many arguments.
    InvalidArguments { program: String },
    /// There is no file at the path of the archive.
    ArchiveNotFound { path: String },
    /// The path of the archive has no file name.
    InvalidArchiveName { path: String },
    /// The file name of the archive does not end with `.tar.gz`.
    NotTarGz { path: String },
    /// The file name of the archive is nothing but `.tar.gz`.
    EmptyBaseName { path: String },
    /// There is no file at the path of the TeX file that was asked for.
    TexFileNotFound { path: String },
    /// The archive holds no TeX file.
    NoTexFile { dir: String },
    /// The archive holds several TeX files, none with a conventional name at the top.
    SeveralTexFiles { paths: Vec<String> },
    /// The program make4ht did not succeed.
    Make4htFailed { status: String },
    /// No HTML file was generated.
    NoHtmlFile { dir: String },
    /// Several HTML files were generated.
    SeveralHtmlFiles { paths: Vec<String> },
}

/// The same reasons, over sequences of characters.
pub enum ErrorView {
    InvalidArguments { program: Seq<char> },
    ArchiveNotFound { path: Seq<char> },
    InvalidArchiveName { path: Seq<char> },
    NotTarGz { path: Seq<char> },
    EmptyBaseName { path: Seq<char> },
    TexFileNotFound { path: Seq<char> },
    NoTexFile { dir: Seq<char> },
    SeveralTexFiles { paths: Seq<Seq<char>> },
    Make4htFailed { status: Seq<char> },
    NoHtmlFile { dir: Seq<char> },
    SeveralHtmlFiles { paths: Seq<Seq<char>> },
}

impl View for ConvertError {
    type V = ErrorView;

    open spec fn view(&self) -> ErrorView {
        match *self {
            ConvertError::InvalidArguments { program } => ErrorView::InvalidArguments {
                program: program@,
            },
            ConvertError::ArchiveNotFound { path } => ErrorView::ArchiveNotFound { path: path@ },
            ConvertError::InvalidArchiveName { path } => ErrorView::InvalidArchiveName {
                path: path@,
            },
            ConvertError::NotTarGz { path } => ErrorView::NotTarGz { path: path@ },
            ConvertError::EmptyBaseName { path } => ErrorView::EmptyBaseName { path: path@ },
            ConvertError::TexFileNotFound { path } => ErrorView::TexFileNotFound { path: path@ },
            ConvertError::NoTexFile { dir } => ErrorView::NoTexFile { dir: dir@ },
            ConvertError::SeveralTexFiles { paths } => ErrorView::SeveralTexFiles {
                paths: texts(paths@),
            },
            ConvertError::Make4htFailed { status } => ErrorView::Make4htFailed {
                status: status@,
            },
            ConvertError::NoHtmlFile { dir } => ErrorView::NoHtmlFile { dir: dir@ },
            ConvertError::SeveralHtmlFiles { paths } => ErrorView::SeveralHtmlFiles {
                paths: texts(paths@),
            },
        }
    }
}

/// A result whose error is seen over sequences of characters.
pub open spec fn seen<T>(r: Result<T, ConvertError>) -> Result<T, ErrorView> {
    match r {
        Ok(value) => Ok(value),
        Err(error) => Err(error@),
    }
}

/// A result that is a string, seen over sequences of characters.
pub open spec fn seen_text(r: Result<String, ConvertError>) -> Result<Seq<char>, ErrorView> {
    match r {
        Ok(text) => Ok(text@),
        Err(error) => Err(error@),
    }
}

/// How the program is called, for the program name `program`.
pub open spec fn usage_text(program: Seq<char>) -> Seq<char> {
    "Usage:\n  "@ + program + " <sources/archive.tar.gz> [main.tex]\n\nExamples:\n  "@ + program
        + " sources/arXiv-1812.00535v3.tar.gz\n  "@ + program
        + " sources/arXiv-1812.00535v3.tar.gz main.tex\n  "@ + program
        + " sources/arXiv-1812.00535v3.tar.gz src/main.tex\n\nOutput:\n  work/<archive-name>/\n  dist/<archive-name>/index.html"@
}

/// The message of an error.
pub open spec fn message_text(error: ErrorView) -> Seq<char> {
    match error {
        ErrorView::InvalidArguments { program } => "invalid arguments"@,
        ErrorView::ArchiveNotFound { path } => "archive not found: "@ + path,
        ErrorView::InvalidArchiveName { path } => "invalid archive file name: "@ + path,
        ErrorView::NotTarGz { path } => "archive must end with .tar.gz: "@ + path,
        ErrorView::EmptyBaseName { path } => "empty archive base name: "@ + path,
        ErrorView::TexFileNotFound { path } => "TeX file not found: "@ + path,
        ErrorView::NoTexFile { dir } => "no .tex file found under "@ + dir,
        ErrorView::SeveralTexFiles { paths } => "specify the main TeX file as the second argument"@,
        ErrorView::Make4htFailed { status } => "make4ht failed with status: "@ + status,
        ErrorView::NoHtmlFile { dir } => "no HTML file generated under "@ + dir,
        ErrorView::SeveralHtmlFiles { paths } =>
            "make4ht generated multiple HTML files; the current config did not fully prevent splitting"@,
    }
}

/// Each text, indented by two blanks.
pub open spec fn indented(paths: Seq<Seq<char>>) -> Seq<Seq<char>> {
    paths.map_values(|path: Seq<char>| "  "@ + path)
}

/// The lines that are printed ahead of the message of an error.
pub open spec fn detail_lines(error: ErrorView) -> Seq<Seq<char>> {
    match error {
        ErrorView::InvalidArguments { program } => seq![usage_text(program)],
        ErrorView::SeveralTexFiles { paths } => seq![
            "Multiple .tex files found and no conventional main file was selected:"@,
            "Looked for these top-level names:"@,
        ] + indented(conventional_names()) + seq![seq![], "Found .tex files:"@] + indented(paths),
        ErrorView::SeveralHtmlFiles { paths } => seq![
            "Expected exactly one HTML file, but found "@ + decimal(paths.len()) + ":"@,
        ] + indented(paths),
        _ => seq![],
    }
}

/// An error is seen as one of the same kind, with the same text.
pub proof fn law_errors_keep_their_kind(text: String, paths: Vec<String>)
    ensures
        (ConvertError::InvalidArguments { program: text })@ == (ErrorView::InvalidArguments {
            program: text@,
        }),
        (ConvertError::ArchiveNotFound { path: text })@ == (ErrorView::ArchiveNotFound {
            path: text@,
        }),
        (ConvertError::InvalidArchiveName { path: text })@ == (ErrorView::InvalidArchiveName {
            path: text@,
        }),
        (ConvertError::NotTarGz { path: text })@ == (ErrorView::NotTarGz { path: text@ }),
        (ConvertError::EmptyBaseName { path: text })@ == (ErrorView::EmptyBaseName {
            path: text@,
        }),
        (ConvertError::TexFileNotFound { path: text })@ == (ErrorView::TexFileNotFound {
            path: text@,
        }),
        (ConvertError::NoTexFile { dir: text })@ == (ErrorView::NoTexFile { dir: text@ }),
        (ConvertError::SeveralTexFiles { paths })@ == (ErrorView::SeveralTexFiles {
            paths: texts(paths@),
        }),
        (ConvertError::Make4htFailed { status: text })@ == (ErrorView::Make4htFailed {
            status: text@,
        }),
        (ConvertError::NoHtmlFile { dir: text })@ == (ErrorView::NoHtmlFile { dir: text@ }),
        (ConvertError::SeveralHtmlFiles { paths })@ == (ErrorView::SeveralHtmlFiles {
            paths: texts(paths@),
        }),
{
}

/// Results are seen as they are, with their texts and errors by their characters.
pub proof fn law_results_are_seen_as_they_are<T>(value: T, text: String, error: ConvertError)
    ensures
        seen(Ok::<T, ConvertError>(value)) == Ok::<T, ErrorView>(value),
        seen(Err::<T, ConvertError>(error)) == Err::<T, ErrorView>(error@),
        seen_text(Ok(text)) == Ok::<Seq<char>, ErrorView>(text@),
        seen_text(Err(error)) == Err::<Seq<char>, ErrorView>(error@),
{
}

/// The messages of errors about the archive and the TeX files name the path or the
/// directory behind what is wrong with it.
pub proof fn law_messages_about_the_sources(text: Seq<char>)
    ensures
        message_text(ErrorView::InvalidArguments { program: text }) == "invalid arguments"@,
        message_text(ErrorView::ArchiveNotFound { path: text }) == "archive not found: "@ + text,
        message_text(ErrorView::InvalidArchiveName { path: text })
            == "invalid archive file name: "@ + text,
        message_text(ErrorView::NotTarGz { path: text }) == "archive must end with .tar.gz: "@
            + text,
        message_text(ErrorView::EmptyBaseName { path: text }) == "empty archive base name: "@
            + text,
        message_text(ErrorView::TexFileNotFound { path: text }) == "TeX file not found: "@ + text,
        message_text(ErrorView::NoTexFile { dir: text }) == "no .tex file found under "@ + text,
{
}

/// The messages of errors about the run of make4ht and its output name the status
/// or the directory; those about several files say what to do or what went wrong.
pub proof fn law_messages_about_the_output(text: Seq<char>, paths: Seq<Seq<char>>)
    ensures
        message_text(ErrorView::Make4htFailed { status: text }) == "make4ht failed with status: "@
            + text,
        message_text(ErrorView::NoHtmlFile { dir: text }) == "no HTML file generated under "@
            + text,
        message_text(ErrorView::SeveralTexFiles { paths })
            == "specify the main TeX file as the second argument"@,
        message_text(ErrorView::SeveralHtmlFiles { paths })
            == "make4ht generated multiple HTML files; the current config did not fully prevent splitting"@,
{
}

/// Ahead of the message about several TeX files come the seven names that were
/// looked for and the paths found, each indented by two blanks, under headings.
pub proof fn law_details_of_several_tex_files(paths: Seq<Seq<char>>)
    ensures
        ({
            let lines = detail_lines(ErrorView::SeveralTexFiles { paths });
            &&& lines.len() == 11 + paths.len()
            &&& lines[0]
                == "Multiple .tex files found and no conventional main file was selected:"@
            &&& lines[1] == "Looked for these top-level names:"@
            &&& lines[2] == "  "@ + "main.tex"@
            &&& lines[3] == "  "@ + "0-main.tex"@
            &&& lines[4] == "  "@ + "example_paper.tex"@
            &&& lines[5] == "  "@ + "paper.tex"@
            &&& lines[6] == "  "@ + "article.tex"@
            &&& lines[7] == "  "@ + "manuscript.tex"@
            &&& lines[8] == "  "@ + "ms.tex"@
            &&& lines[9] == Seq::<char>::empty()
            &&& lines[10] == "Found .tex files:"@
            &&& forall|k: int| 0 <= k < paths.len() ==> lines[11 + k] == "  "@ + #[trigger] paths[k]
        }),
{
}

/// Ahead of the message about several HTML files come their number and their
/// paths, each indented by two blanks.
pub proof fn law_details_of_several_html_files(paths: Seq<Seq<char>>)
    ensures
        ({
            let lines = detail_lines(ErrorView::SeveralHtmlFiles { paths });
            &&& lines.len() == 1 + paths.len()
            &&& lines[0] == "Expected exactly one HTML file, but found "@ + decimal(paths.len())
                + ":"@
            &&& forall|k: int| 0 <= k < paths.len() ==> lines[1 + k] == "  "@ + #[trigger] paths[k]
        }),
{
}

/// The usage comes ahead of the message about the arguments; other messages have
/// nothing ahead of them.
pub proof fn law_details_of_other_errors(error: ErrorView)
    ensures
        error matches ErrorView::InvalidArguments { program } ==> detail_lines(error) == seq![
            usage_text(program),
        ],
        error !is InvalidArguments && error !is SeveralTexFiles && error !is SeveralHtmlFiles
            ==> detail_lines(error) == Seq::<Seq<char>>::empty(),
{
}

/// The usage names the program in the call and in each of three examples, and
/// says where the output goes.
pub proof fn law_usage(program: Seq<char>)
    ensures
        usage_text(program) == "Usage:\n  "@ + program
            + " <sources/archive.tar.gz> [main.tex]\n\nExamples:\n  "@ + program
            + " sources/arXiv-1812.00535v3.tar.gz\n  "@ + program
            + " sources/arXiv-1812.00535v3.tar.gz main.tex\n  "@ + program
            + " sources/arXiv-1812.00535v3.tar.gz src/main.tex\n\nOutput:\n  work/<archive-name>/\n  dist/<archive-name>/index.html"@,
{
}

fn text_of(t: &str) -> (r: String)
    ensures
        r@ == t@,
{
    t.to_string()
}

fn joined(a: &str, b: &str) -> (r: String)
    ensures
        r@ == a@ + b@,
{
    let mut s = String::new();
    push_text(&mut s, a);
    push_text(&mut s, b);
    assert(s@ =~= a@ + b@);
    s
}

/// How the program is called.
pub fn usage(program: &str) -> (r: String)
    ensures
        r@ == usage_text(program@),
{
    let mut s = text_of("Usage:\n  ");
    push_text(&mut s, program);
    push_text(&mut s, " <sources/archive.tar.gz> [main.tex]\n\nExamples:\n  ");
    push_text(&mut s, program);
    push_text(&mut s, " sources/arXiv-1812.00535v3.tar.gz\n  ");
    push_text(&mut s, program);
    push_text(&mut s, " sources/arXiv-1812.00535v3.tar.gz main.tex\n  ");
    push_text(&mut s, program);
    push_text(
        &mut s,
        " sources/arXiv-1812.00535v3.tar.gz src/main.tex\n\nOutput:\n  work/<archive-name>/\n  dist/<archive-name>/index.html",
    );
    s
}

fn push_line(lines: &mut Vec<String>, line: String)
    ensures
        texts(final(lines)@) == texts(old(lines)@).push(line@),
{
    let ghost before = lines@;
    lines.push(line);
    assert(texts(lines@) =~= texts(before).push(line@));
}

fn push_indented(lines: &mut Vec<String>, paths: &Vec<String>)
    ensures
        texts(final(lines)@) == texts(old(lines)@) + indented(texts(paths@)),
{
    let ghost before = texts(lines@);
    let ghost all = indented(texts(paths@));
    let mut i: usize = 0;
    assert(before + all.take(0) =~= before);
    while i < paths.len()
        invariant
            i <= paths@.len(),
            all == indented(texts(paths@)),
            texts(lines@) == before + all.take(i as int),
        decreases paths@.len() - i,
    {
        let ghost done = lines@;
        let line = joined("  ", paths[i].as_str());
        assert(texts(paths@)[i as int] == paths@[i as int]@);
        assert(all[i as int] == line@);
        lines.push(line);
        assert(texts(lines@) =~= texts(done).push(line@));
        assert(all.take(i + 1) =~= all.take(i as int).push(line@));
        i += 1;
    }
    assert(all.take(paths@.len() as int) =~= all);
}

impl ConvertError {
    /// The message of the error.
    pub fn message(&self) -> (r: String)
        ensures
            r@ == message_text(self@),
    {
        match self {
            ConvertError::InvalidArguments { program } => text_of("invalid arguments"),
            ConvertError::ArchiveNotFound { path } => joined("archive not found: ", path.as_str()),
            ConvertError::InvalidArchiveName { path } => joined(
                "invalid archive file name: ",
                path.as_str(),
            ),
            ConvertError::NotTarGz { path } => joined(
                "archive must end with .tar.gz: ",
                path.as_str(),
            ),
            ConvertError::EmptyBaseName { path } => joined(
                "empty archive base name: ",
                path.as_str(),
            ),
            ConvertError::TexFileNotFound { path } => joined("TeX file not found: ", path.as_str()),
            ConvertError::NoTexFile { dir } => joined("no .tex file found under ", dir.as_str()),
            ConvertError::SeveralTexFiles { paths } => text_of(
                "specify the main TeX file as the second argument",
            ),
            ConvertError::Make4htFailed { status } => joined(
                "make4ht failed with status: ",
                status.as_str(),
            ),
            ConvertError::NoHtmlFile { dir } => joined(
                "no HTML file generated under ",
                dir.as_str(),
            ),
            ConvertError::SeveralHtmlFiles { paths } => text_of(
                "make4ht generated multiple HTML files; the current config did not fully prevent splitting",
            ),
        }
    }

    /// The lines to print ahead of the message.
    pub fn details(&self) -> (r: Vec<String>)
        ensures
            texts(r@) == detail_lines(self@),
    {
        let mut lines: Vec<String> = Vec::new();
        assert(texts(lines@) =~= seq![]);
        match self {
            ConvertError::InvalidArguments { program } => {
                push_line(&mut lines, usage(program.as_str()));
            },
            ConvertError::SeveralTexFiles { paths } => {
                push_line(
                    &mut lines,
                    text_of("Multiple .tex files found and no conventional main file was selected:"),
                );
                push_line(&mut lines, text_of("Looked for these top-level names:"));
                let names = conventional_file_names();
                push_indented(&mut lines, &names);
                let empty = String::new();
                assert(empty@ =~= seq![]);
                push_line(&mut lines, empty);
                push_line(&mut lines, text_of("Found .tex files:"));
                push_indented(&mut lines, paths);
            },
            ConvertError::SeveralHtmlFiles { paths } => {
                let mut line = joined(
                    "Expected exactly one HTML file, but found ",
                    decimal_string(paths.len() as u64).as_str(),
                );
                push_text(&mut line, ":");
                push_line(&mut lines, line);
                push_indented(&mut lines, paths);
            },
            _ => {},
        }
        assert(texts(lines@) =~= detail_lines(self@));
        lines
    }
}

} // verus!

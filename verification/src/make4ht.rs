//! How the program make4ht is run, and what becomes of its result.

use vstd::prelude::*;

use crate::error::{seen, ConvertError, ErrorView};

verus! {

/// The name of the configuration file, which lies beside the TeX sources.
pub const CONFIG_FILE: &'static str = "make4ht-single.cfg";

/// The configuration: one page without cuts, fallbacks for macros that may be
/// undefined, and the style of the page.
pub const MAKE4HT_CONFIG: &'static str = r#"\Preamble{xhtml}

\Configure{CutAt}{}

% TeX4ht sometimes references this internal section-title macro
% after ignoring appendix sections.
\expandafter\def\csname ssect:ttl\endcsname{}

% Common paper macros that may be undefined under htlatex.
\providecommand{\etal}{et al.}
\providecommand{\eg}{e.g.}
\providecommand{\ie}{i.e.}
\providecommand{\cf}{cf.}

% Cross-reference fallbacks.
\providecommand{\cref}[1]{\ref{#1}}
\providecommand{\Cref}[1]{\ref{#1}}
\providecommand{\autoref}[1]{\ref{#1}}

% Annotation commands often used in drafts.
\providecommand{\todo}[1]{}
\providecommand{\TODO}[1]{}
\providecommand{\note}[1]{}
\providecommand{\comment}[1]{}

% IEEE-related fallbacks.
\providecommand{\IEEEpubid}[1]{}
\providecommand{\IEEEpubidadjcol}{}
\providecommand{\IEEEpeerreviewmaketitle}{}
\providecommand{\IEEEauthorblockN}[1]{#1}
\providecommand{\IEEEauthorblockA}[1]{#1}
\providecommand{\IEEEoverridecommandlockouts}{}

\Css{
:root {
  color-scheme: light;
}
html, body {
  background: white;
  color: black;
}
img:not(.math) {
  max-width: 95\%;
  height: auto;
}
}

\begin{document}
\EndPreamble
"#;

/// An argument of make4ht.
#[derive(Debug)]
pub enum CommandArg {
    /// A fixed text.
    Text(String),
    /// The absolute path of the directory for the output.
    OutputDir,
    /// The path of the main TeX file, relative to the directory of the sources.
    TexFile,
}

/// An argument over sequences of characters.
pub enum ArgView {
    Text(Seq<char>),
    OutputDir,
    TexFile,
}

impl View for CommandArg {
    type V = ArgView;

    open spec fn view(&self) -> ArgView {
        match *self {
            CommandArg::Text(text) => ArgView::Text(text@),
            CommandArg::OutputDir => ArgView::OutputDir,
            CommandArg::TexFile => ArgView::TexFile,
        }
    }
}

/// The arguments of make4ht, in order.
pub open spec fn command_line() -> Seq<ArgView> {
    seq![
        ArgView::Text("-d"@),
        ArgView::OutputDir,
        ArgView::Text("-c"@),
        ArgView::Text(CONFIG_FILE@),
        ArgView::TexFile,
        ArgView::Text("html5,mathjax,fn-in"@),
    ]
}

/// The configuration, word for word: what make4ht reads decides what the page looks
/// like, down to the blanks.
pub proof fn law_configuration()
    ensures
        CONFIG_FILE@ == "make4ht-single.cfg"@,
        MAKE4HT_CONFIG@ == r#"\Preamble{xhtml}

\Configure{CutAt}{}

% TeX4ht sometimes references this internal section-title macro
% after ignoring appendix sections.
\expandafter\def\csname ssect:ttl\endcsname{}

% Common paper macros that may be undefined under htlatex.
\providecommand{\etal}{et al.}
\providecommand{\eg}{e.g.}
\providecommand{\ie}{i.e.}
\providecommand{\cf}{cf.}

% Cross-reference fallbacks.
\providecommand{\cref}[1]{\ref{#1}}
\providecommand{\Cref}[1]{\ref{#1}}
\providecommand{\autoref}[1]{\ref{#1}}

% Annotation commands often used in drafts.
\providecommand{\todo}[1]{}
\providecommand{\TODO}[1]{}
\providecommand{\note}[1]{}
\providecommand{\comment}[1]{}

% IEEE-related fallbacks.
\providecommand{\IEEEpubid}[1]{}
\providecommand{\IEEEpubidadjcol}{}
\providecommand{\IEEEpeerreviewmaketitle}{}
\providecommand{\IEEEauthorblockN}[1]{#1}
\providecommand{\IEEEauthorblockA}[1]{#1}
\providecommand{\IEEEoverridecommandlockouts}{}

\Css{
:root {
  color-scheme: light;
}
html, body {
  background: white;
  color: black;
}
img:not(.math) {
  max-width: 95\%;
  height: auto;
}
}

\begin{document}
\EndPreamble
"#@,
{
}

/// The output goes to the output directory (`-d`), the configuration is that file
/// (`-c`), and the main TeX file comes with its options.
pub proof fn law_command_line()
    ensures
        command_line().len() == 6,
        command_line()[0] == ArgView::Text("-d"@),
        command_line()[1] == ArgView::OutputDir,
        command_line()[2] == ArgView::Text("-c"@),
        command_line()[3] == ArgView::Text("make4ht-single.cfg"@),
        command_line()[4] == ArgView::TexFile,
        command_line()[5] == ArgView::Text("html5,mathjax,fn-in"@),
{
}

/// The arguments of make4ht, in order.
pub fn make4ht_args() -> (r: Vec<CommandArg>)
    ensures
        r@.map_values(|a: CommandArg| a@) == command_line(),
{
    let mut args: Vec<CommandArg> = Vec::new();
    args.push(CommandArg::Text("-d".to_string()));
    args.push(CommandArg::OutputDir);
    args.push(CommandArg::Text("-c".to_string()));
    args.push(CommandArg::Text(CONFIG_FILE.to_string()));
    args.push(CommandArg::TexFile);
    args.push(CommandArg::Text("html5,mathjax,fn-in".to_string()));
    assert(args@.map_values(|a: CommandArg| a@) =~= command_line());
    args
}

/// What a run of make4ht comes to, given whether it succeeded and how its exit
/// status is shown.
pub fn make4ht_outcome(success: bool, status: &str) -> (r: Result<(), ConvertError>)
    ensures
        seen(r) == if success {
            Ok::<(), ErrorView>(())
        } else {
            Err(ErrorView::Make4htFailed { status: status@ })
        },
{
    if success {
        Ok(())
    } else {
        Err(ConvertError::Make4htFailed { status: status.to_string() })
    }
}

} // verus!

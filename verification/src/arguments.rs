//! The arguments that the program is called with.

use vstd::prelude::*;

use crate::error::{ConvertError, ErrorView};
use crate::text::opt_text;

verus! {

/// What the program is to convert: the path of the archive, and the path of the
/// main TeX file inside it where that was given.
#[derive(Debug)]
pub struct Arguments {
    pub archive: String,
    pub main_tex: Option<String>,
}

/// The arguments over sequences of characters.
pub struct ArgumentsView {
    pub archive: Seq<char>,
    pub main_tex: Option<Seq<char>>,
}

impl View for Arguments {
    type V = ArgumentsView;

    open spec fn view(&self) -> ArgumentsView {
        ArgumentsView { archive: self.archive@, main_tex: opt_text(self.main_tex) }
    }
}

/// What a command line of the program name and one or two more arguments asks for.
pub open spec fn arguments(args: Seq<String>) -> Result<ArgumentsView, ErrorView> {
    if args.len() < 2 || args.len() > 3 {
        Err(ErrorView::InvalidArguments { program: args[0]@ })
    } else {
        Ok(
            ArgumentsView {
                archive: args[1]@,
                main_tex: if args.len() == 3 {
                    Some(args[2]@)
                } else {
                    None
                },
            },
        )
    }
}

/// One argument behind the program name is the archive, a second one the main TeX
/// file; none, or more, are refused with the program name.
pub proof fn law_arguments_in_turn(args: Seq<String>)
    ensures
        args.len() == 2 ==> arguments(args) == Ok::<ArgumentsView, ErrorView>(
            ArgumentsView { archive: args[1]@, main_tex: None },
        ),
        args.len() == 3 ==> arguments(args) == Ok::<ArgumentsView, ErrorView>(
            ArgumentsView { archive: args[1]@, main_tex: Some(args[2]@) },
        ),
        args.len() == 1 || args.len() > 3 ==> arguments(args) == Err::<ArgumentsView, ErrorView>(
            ErrorView::InvalidArguments { program: args[0]@ },
        ),
{
}

/// What a command line asks for. `args` begins with the name of the program.
pub fn parse_arguments(args: &Vec<String>) -> (r: Result<Arguments, ConvertError>)
    requires
        args@.len() >= 1,
    ensures
        match r {
            Ok(value) => arguments(args@) == Ok::<ArgumentsView, ErrorView>(value@),
            Err(error) => arguments(args@) == Err::<ArgumentsView, ErrorView>(error@),
        },
{
    if args.len() < 2 || args.len() > 3 {
        return Err(ConvertError::InvalidArguments { program: args[0].clone() });
    }
    let main_tex = if args.len() == 3 {
        Some(args[2].clone())
    } else {
        None
    };
    Ok(Arguments { archive: args[1].clone(), main_tex })
}

} // verus!

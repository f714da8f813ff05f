//! The arguments with which the table is created: they name the directory
//! of the notes.

use crate::errors::{ErrorView, VtabError};
use crate::text::same_text;
use vstd::prelude::*;

verus! {

/// The value of a configuration option, by the way it was written.
#[derive(Debug, PartialEq, Eq)]
pub enum ConfigOptionValue {
    /// A string in single or double quotes; the text is what stood between
    /// them.
    Quoted(String),
    /// The name of a parameter of the database.
    SqliteParameter(String),
    /// A word without quotes.
    Bareword(String),
}

/// A configuration option: a key and its value.
#[derive(Debug, PartialEq, Eq)]
pub struct ConfigOption {
    pub key: String,
    pub value: ConfigOptionValue,
}

/// One parsed argument of the table's creation.
#[derive(Debug, PartialEq, Eq)]
pub enum Argument {
    /// The declaration of a column; the table passes over it.
    Column,
    /// A configuration option.
    Config(ConfigOption),
}

/// What the arguments have to say: the directory of the notes.
#[derive(Debug, PartialEq, Eq)]
pub struct ObsidianArguments {
    pub dirname: String,
}

/// The value of a configuration option over plain text.
pub enum ConfigValueView {
    Quoted(Seq<char>),
    SqliteParameter(Seq<char>),
    Bareword(Seq<char>),
}

/// A parsed argument over plain text.
pub enum ArgumentView {
    Column,
    Config { key: Seq<char>, value: ConfigValueView },
}

impl View for ConfigOptionValue {
    type V = ConfigValueView;

    open spec fn view(&self) -> ConfigValueView {
        match self {
            ConfigOptionValue::Quoted(text) => ConfigValueView::Quoted(text@),
            ConfigOptionValue::SqliteParameter(name) => ConfigValueView::SqliteParameter(name@),
            ConfigOptionValue::Bareword(word) => ConfigValueView::Bareword(word@),
        }
    }
}

impl View for Argument {
    type V = ArgumentView;

    open spec fn view(&self) -> ArgumentView {
        match self {
            Argument::Column => ArgumentView::Column,
            Argument::Config(option) => ArgumentView::Config {
                key: option.key@,
                value: option.value@,
            },
        }
    }
}

/// An argument as its parser left it, over plain text: the parsed argument,
/// or the parser's complaint.
pub type Fragment = Result<ArgumentView, Seq<char>>;

/// The view of an argument as its parser left it.
pub open spec fn fragment_view(parsed: Result<Argument, String>) -> Fragment {
    match parsed {
        Ok(argument) => Ok(argument@),
        Err(reason) => Err(reason@),
    }
}

/// The views of a sequence of arguments as their parser left them.
pub open spec fn fragment_views(parsed: Seq<Result<Argument, String>>) -> Seq<Fragment> {
    parsed.map_values(|one: Result<Argument, String>| fragment_view(one))
}

/// Whether a fragment sets the directory: a configuration option with the
/// key `dirname`.
pub open spec fn sets_dirname(fragment: Fragment) -> bool {
    fragment matches Ok(ArgumentView::Config { key, .. }) && key == "dirname"@
}

/// What the value given for `dirname` comes to, where `found` says whether
/// the path exists: only a quoted string names a path, and the path must
/// exist.
pub open spec fn path_outcome(value: ConfigValueView, found: bool) -> Result<
    Seq<char>,
    ErrorView,
> {
    match value {
        ConfigValueView::Quoted(path) => if found {
            Ok(path)
        } else {
            Err(ErrorView::PathNotFound(path))
        },
        _ => Err(ErrorView::InvalidConfigValue),
    }
}

/// The directory known after one more fragment, where `dirname` was known
/// before it and `found` says whether the path that the fragment names
/// exists: a fragment that did not parse fails, one that sets the directory
/// replaces it or fails, any other changes nothing.
pub open spec fn accept(dirname: Option<Seq<char>>, fragment: Fragment, found: bool) -> Result<
    Option<Seq<char>>,
    ErrorView,
> {
    match fragment {
        Err(reason) => Err(ErrorView::MalformedArgument(reason)),
        Ok(ArgumentView::Column) => Ok(dirname),
        Ok(ArgumentView::Config { key, value }) => if key == "dirname"@ {
            match path_outcome(value, found) {
                Ok(path) => Ok(Some(path)),
                Err(error) => Err(error),
            }
        } else {
            Ok(dirname)
        },
    }
}

/// The directory known after all of `fragments`, taken from the first to
/// the last, or the failure of the first fragment that fails. `found` says
/// of each fragment whether the path that it names exists; it is as long as
/// `fragments`.
pub open spec fn dirname_after(fragments: Seq<Fragment>, found: Seq<bool>) -> Result<
    Option<Seq<char>>,
    ErrorView,
>
    decreases fragments.len(),
{
    if fragments.len() == 0 {
        Ok(None)
    } else {
        match dirname_after(fragments.drop_last(), found.drop_last()) {
            Err(error) => Err(error),
            Ok(dirname) => accept(dirname, fragments.last(), found.last()),
        }
    }
}

/// What the arguments come to: the directory that the last `dirname` names,
/// the failure of the first fragment that fails, or, where no fragment
/// fails and none sets the directory, the failure to name one.
pub open spec fn arguments_outcome(fragments: Seq<Fragment>, found: Seq<bool>) -> Result<
    Seq<char>,
    ErrorView,
> {
    match dirname_after(fragments, found) {
        Err(error) => Err(error),
        Ok(Some(dirname)) => Ok(dirname),
        Ok(None) => Err(ErrorView::MissingArgument),
    }
}

/// Asks the file system whether anything is at `path`, by
/// `std::path::Path::exists`. Nothing is claimed of the answer: what is on
/// disk decides it, and two calls may differ.
#[verifier::external_body]
fn path_exists(path: &str) -> (found: bool) {
    std::path::Path::new(path).exists()
}

/// The path, once it is known whether it exists.
pub fn checked_path(path: String, found: bool) -> (result: Result<String, VtabError>)
    ensures
        match result {
            Ok(checked) => found && checked@ == path@,
            Err(error) => !found && error@ == ErrorView::PathNotFound(path@),
        },
{
    if found {
        Ok(path)
    } else {
        Err(VtabError::PathNotFound(path))
    }
}

/// The path that the value of `dirname` names. A value that is no quoted
/// string is refused. A quoted one is looked up in the file system: the
/// result is the path where it exists, and the failure that names the path
/// where it does not.
pub fn parse_path(value: ConfigOptionValue) -> (result: Result<String, VtabError>)
    ensures
        match result {
            Ok(path) => path_outcome(value@, true) == Ok::<Seq<char>, ErrorView>(path@),
            Err(error) => path_outcome(value@, false) == Err::<Seq<char>, ErrorView>(error@),
        },
{
    match value {
        ConfigOptionValue::Quoted(path) => {
            let found = path_exists(path.as_str());
            checked_path(path, found)
        },
        _ => Err(VtabError::InvalidConfigValue),
    }
}

/// A scan of the fragments that has failed on some of them fails in the
/// same way on all.
proof fn lemma_failure_stays(fragments: Seq<Fragment>, found: Seq<bool>, k: int)
    requires
        0 <= k <= fragments.len(),
        found.len() == fragments.len(),
        dirname_after(fragments.take(k), found.take(k)) is Err,
    ensures
        dirname_after(fragments, found) == dirname_after(fragments.take(k), found.take(k)),
    decreases fragments.len() - k,
{
    if k == fragments.len() {
        assert(fragments.take(k) =~= fragments);
        assert(found.take(k) =~= found);
    } else {
        assert(fragments.take(k + 1).drop_last() =~= fragments.take(k));
        assert(found.take(k + 1).drop_last() =~= found.take(k));
        lemma_failure_stays(fragments, found, k + 1);
    }
}

/// The directory that the arguments name. The fragments are taken in their
/// order. One that did not parse fails with the parser's complaint. One
/// that sets `dirname` must give a quoted string that names an existing
/// path, which the file system is asked for. Every other fragment is passed
/// over. The last `dirname` counts; without any the arguments fail.
///
/// The result is what `arguments_outcome` gives for the answers that the
/// file system gave.
pub fn parse_arguments(arguments: Vec<Result<Argument, String>>) -> (result: Result<
    ObsidianArguments,
    VtabError,
>)
    ensures
        exists|found: Seq<bool>|
            found.len() == arguments.len() && match result {
                Ok(parsed) => #[trigger] arguments_outcome(fragment_views(arguments@), found)
                    == Ok::<Seq<char>, ErrorView>(parsed.dirname@),
                Err(error) => arguments_outcome(fragment_views(arguments@), found) == Err::<
                    Seq<char>,
                    ErrorView,
                >(error@),
            },
{
    let ghost fragments = fragment_views(arguments@);
    let ghost mut found: Seq<bool> = Seq::empty();
    let mut dirname: Option<String> = None;
    let count: usize = arguments.len();
    for argument in it: arguments
        invariant
            count == fragments.len(),
            fragments == fragment_views(it.seq()),
            found.len() == it.index(),
            dirname_after(fragments.take(it.index() as int), found) == Ok::<
                Option<Seq<char>>,
                ErrorView,
            >(
                match dirname {
                    Some(path) => Some(path@),
                    None => None,
                },
            ),
    {
        let ghost i = it.index() as int;
        let ghost fragment = fragment_view(argument);
        let ghost before = found;
        proof {
            assert(fragments.take(i + 1).drop_last() =~= fragments.take(i));
            assert(fragments.take(i + 1).last() == fragment);
        }
        match argument {
            Ok(Argument::Config(option)) => {
                if same_text(option.key.as_str(), "dirname") {
                    match parse_path(option.value) {
                        Ok(path) => {
                            proof {
                                found = found.push(true);
                                assert(found.drop_last() =~= before);
                            }
                            dirname = Some(path);
                        },
                        Err(error) => {
                            proof {
                                let seen = found.push(false);
                                let all = seen + Seq::new((count - i - 1) as nat, |j: int| true);
                                assert(seen.drop_last() =~= found);
                                assert(all.take(i + 1) =~= seen);
                                lemma_failure_stays(fragments, all, i + 1);
                                assert(arguments_outcome(fragments, all) == Err::<
                                    Seq<char>,
                                    ErrorView,
                                >(error@));
                            }
                            return Err(error);
                        },
                    }
                } else {
                    proof {
                        found = found.push(true);
                        assert(found.drop_last() =~= before);
                    }
                }
            },
            Ok(Argument::Column) => {
                proof {
                    found = found.push(true);
                    assert(found.drop_last() =~= before);
                }
            },
            Err(reason) => {
                let error = VtabError::MalformedArgument(reason);
                proof {
                    let seen = found.push(true);
                    let all = seen + Seq::new((count - i - 1) as nat, |j: int| true);
                    assert(seen.drop_last() =~= found);
                    assert(all.take(i + 1) =~= seen);
                    lemma_failure_stays(fragments, all, i + 1);
                    assert(arguments_outcome(fragments, all) == Err::<Seq<char>, ErrorView>(
                        error@,
                    ));
                }
                return Err(error);
            },
        }
    }
    proof {
        assert(fragments.take(count as int) =~= fragments);
    }
    match dirname {
        Some(dirname) => {
            assert(arguments_outcome(fragments, found) == Ok::<Seq<char>, ErrorView>(dirname@));
            Ok(ObsidianArguments { dirname })
        },
        None => {
            assert(arguments_outcome(fragments, found) == Err::<Seq<char>, ErrorView>(
                ErrorView::MissingArgument,
            ));
            Err(VtabError::MissingArgument)
        },
    }
}

/// Arguments of which every fragment parsed and none sets `dirname` fail to
/// name the directory, whatever is on disk.
pub proof fn lemma_without_dirname(fragments: Seq<Fragment>, found: Seq<bool>)
    requires
        found.len() == fragments.len(),
        forall|i: int|
            0 <= i < fragments.len() ==> fragments[i] is Ok && !sets_dirname(fragments[i]),
    ensures
        dirname_after(fragments, found) == Ok::<Option<Seq<char>>, ErrorView>(None),
        arguments_outcome(fragments, found) == Err::<Seq<char>, ErrorView>(
            ErrorView::MissingArgument,
        ),
    decreases fragments.len(),
{
    if fragments.len() > 0 {
        let front = fragments.drop_last();
        assert forall|i: int| 0 <= i < front.len() implies front[i] is Ok && !sets_dirname(
            front[i],
        ) by {
            assert(front[i] == fragments[i]);
        }
        lemma_without_dirname(front, found.drop_last());
        assert(fragments.last() == fragments[fragments.len() - 1]);
    }
}

/// A `dirname` whose path does not exist fails the arguments with that
/// path, unless a fragment before it has failed already.
pub proof fn lemma_path_not_found(
    fragments: Seq<Fragment>,
    found: Seq<bool>,
    at: int,
    path: Seq<char>,
)
    requires
        found.len() == fragments.len(),
        0 <= at < fragments.len(),
        fragments[at] == Ok::<ArgumentView, Seq<char>>(
            ArgumentView::Config { key: "dirname"@, value: ConfigValueView::Quoted(path) },
        ),
        !found[at],
        dirname_after(fragments.take(at), found.take(at)) is Ok,
    ensures
        arguments_outcome(fragments, found) == Err::<Seq<char>, ErrorView>(
            ErrorView::PathNotFound(path),
        ),
{
    assert(fragments.take(at + 1).drop_last() =~= fragments.take(at));
    assert(found.take(at + 1).drop_last() =~= found.take(at));
    assert(fragments.take(at + 1).last() == fragments[at]);
    assert(found.take(at + 1).last() == found[at]);
    lemma_failure_stays(fragments, found, at + 1);
}

} // verus!

//! Where the submission token is kept, and which token a command uses.

use vstd::prelude::*;

use crate::failure::{told_alike, Failure, FailureView};
use crate::text::{
    is_white_space, law_trimmed, lemma_same_words, lemma_same_words_two, same_words, slice_text,
    texts, trim, trimmed, trimmed_end, trimmed_start,
};

verus! {

/// Only the user may read and write the token: it grants the right to submit.
pub const TOKEN_FILE_MODE: u32 = 0o600;

/// The environment variable that a configuration path starts from.
#[derive(Clone, Copy, Debug, PartialEq, Eq, Structural)]
pub enum Base {
    XdgConfigHome,
    Home,
}

/// A path: the value of an environment variable, and the names below it.
#[derive(Debug)]
pub struct ConfigPath {
    pub base: Base,
    pub names: Vec<String>,
}

/// What a [`ConfigPath`] says.
#[verifier::ext_equal]
pub struct ConfigPathView {
    pub base: Base,
    pub names: Seq<Seq<char>>,
}

impl View for ConfigPath {
    type V = ConfigPathView;

    open spec fn view(&self) -> ConfigPathView {
        ConfigPathView { base: self.base, names: texts(self.names@) }
    }
}

/// The variable is set, and not to nothing.
pub open spec fn is_given(len: Option<usize>) -> bool {
    len matches Some(n) && n > 0
}

/// The directory of the configuration, or that there is none. `xdg` and `home` are the
/// lengths of the two variables, if they are set.
pub open spec fn config_at(xdg: Option<usize>, home: Option<usize>) -> Result<
    ConfigPathView,
    FailureView,
> {
    if is_given(xdg) {
        Ok(ConfigPathView { base: Base::XdgConfigHome, names: seq!["moa-submitter"@] })
    } else if is_given(home) {
        Ok(ConfigPathView { base: Base::Home, names: seq![".config"@, "moa-submitter"@] })
    } else {
        Err(FailureView::service("Cannot find your home directory ($HOME is not set)."@))
    }
}

/// The file of the token, or that there is no place for it.
pub open spec fn token_at(xdg: Option<usize>, home: Option<usize>) -> Result<
    ConfigPathView,
    FailureView,
> {
    match config_at(xdg, home) {
        Ok(dir) => Ok(ConfigPathView { names: dir.names.push("token"@), ..dir }),
        Err(failure) => Err(failure),
    }
}

/// Whether the variable is set, and not to nothing.
fn given(len: Option<usize>) -> (r: bool)
    ensures
        r == is_given(len),
{
    match len {
        Some(n) => n > 0,
        None => false,
    }
}

/// The directory of the configuration. `xdg_config_home` and `home` are the lengths of
/// `$XDG_CONFIG_HOME` and `$HOME`, if they are set.
pub fn config_dir(xdg_config_home: Option<usize>, home: Option<usize>) -> (r: Result<
    ConfigPath,
    Failure,
>)
    ensures
        match (r, config_at(xdg_config_home, home)) {
            (Ok(dir), Ok(expected)) => dir@ == expected,
            (Err(failure), Err(expected)) => failure@ == expected,
            _ => false,
        },
{
    let mut names: Vec<String> = Vec::new();
    if given(xdg_config_home) {
        names.push("moa-submitter".to_owned());
        assert(texts(names@) =~= seq!["moa-submitter"@]);
        Ok(ConfigPath { base: Base::XdgConfigHome, names })
    } else if given(home) {
        names.push(".config".to_owned());
        names.push("moa-submitter".to_owned());
        assert(texts(names@) =~= seq![".config"@, "moa-submitter"@]);
        Ok(ConfigPath { base: Base::Home, names })
    } else {
        Err(Failure::service("Cannot find your home directory ($HOME is not set).".to_owned()))
    }
}

/// The file of the token.
pub fn token_path(xdg_config_home: Option<usize>, home: Option<usize>) -> (r: Result<
    ConfigPath,
    Failure,
>)
    ensures
        match (r, token_at(xdg_config_home, home)) {
            (Ok(path), Ok(expected)) => path@ == expected,
            (Err(failure), Err(expected)) => failure@ == expected,
            _ => false,
        },
{
    match config_dir(xdg_config_home, home) {
        Ok(dir) => {
            let mut names: Vec<String> = dir.names;
            let ghost before = names@;
            names.push("token".to_owned());
            assert(texts(names@) =~= texts(before).push("token"@));
            Ok(ConfigPath { base: dir.base, names })
        },
        Err(failure) => Err(failure),
    }
}

/// The step that failed while a token was stored.
#[derive(Clone, Copy, Debug, PartialEq, Eq, Structural)]
pub enum StoreStep {
    /// Creating the directory.
    CreateDirectory,
    /// Opening the file, or writing to it.
    WriteFile,
}

/// What a token file holds: the token on a line of its own.
pub open spec fn token_line(token: Seq<char>) -> Seq<char> {
    token + "\n"@
}

/// What to write to the token file.
pub fn token_file_content(token: &str) -> (r: String)
    ensures
        r@ == token_line(token@),
{
    token.to_owned().concat("\n")
}

/// Why a token could not be stored.
pub open spec fn not_stored(step: StoreStep, display: Seq<char>, reason: Seq<char>) -> FailureView {
    FailureView::service(
        match step {
            StoreStep::CreateDirectory => "Cannot create "@,
            StoreStep::WriteFile => "Cannot write "@,
        } + display + ": "@ + reason,
    )
}

/// Why a token could not be stored.
pub fn store_failure(step: StoreStep, display: &str, reason: &str) -> (r: Failure)
    ensures
        r@ == not_stored(step, display@, reason@),
        r@ == FailureView::service(
            match step {
                StoreStep::CreateDirectory => "Cannot create "@,
                StoreStep::WriteFile => "Cannot write "@,
            } + display@ + ": "@ + reason@,
        ),
{
    let what: &str = match step {
        StoreStep::CreateDirectory => "Cannot create ",
        StoreStep::WriteFile => "Cannot write ",
    };
    Failure::service(what.to_owned().concat(display).concat(": ").concat(reason))
}

/// What is known of the token file.
#[derive(Clone, Copy, Debug)]
pub enum TokenFile<'a> {
    /// Nothing was tried yet.
    NotRead,
    /// It could not be read.
    Unreadable,
    /// It holds this.
    Content(&'a str),
}

/// What is known of the token file.
pub enum TokenFileView {
    NotRead,
    Unreadable,
    Content(Seq<char>),
}

impl<'a> View for TokenFile<'a> {
    type V = TokenFileView;

    open spec fn view(&self) -> TokenFileView {
        match *self {
            TokenFile::NotRead => TokenFileView::NotRead,
            TokenFile::Unreadable => TokenFileView::Unreadable,
            TokenFile::Content(s) => TokenFileView::Content(s@),
        }
    }
}

/// How loading the token goes on.
#[derive(Debug)]
pub enum TokenStep {
    /// This is the token.
    Use(String),
    /// The token file has to be read.
    ReadFile,
    /// There is no token.
    Fail(Failure),
}

/// How loading the token goes on.
pub enum TokenStepView {
    Use(Seq<char>),
    ReadFile,
    Fail(FailureView),
}

impl View for TokenStep {
    type V = TokenStepView;

    open spec fn view(&self) -> TokenStepView {
        match *self {
            TokenStep::Use(token) => TokenStepView::Use(token@),
            TokenStep::ReadFile => TokenStepView::ReadFile,
            TokenStep::Fail(failure) => TokenStepView::Fail(failure@),
        }
    }
}

/// The token that a command uses: that of the environment variable, if it holds more
/// than white space, and else that of the file.
pub open spec fn token_used(variable: Option<Seq<char>>, file: TokenFileView) -> TokenStepView {
    match variable {
        Some(s) if trimmed(s).len() > 0 => TokenStepView::Use(trimmed(s)),
        _ => match file {
            TokenFileView::NotRead => TokenStepView::ReadFile,
            TokenFileView::Unreadable => TokenStepView::Fail(
                FailureView::rejected(
                    "You are not logged in. Run `moa-submitter login` first."@,
                ),
            ),
            TokenFileView::Content(s) => if trimmed(s).len() > 0 {
                TokenStepView::Use(trimmed(s))
            } else {
                TokenStepView::Fail(
                    FailureView::rejected(
                        "Your stored token is empty. Run `moa-submitter login` again."@,
                    ),
                )
            },
        },
    }
}

/// The token that a command uses, or that the token file has to be read first.
/// `variable` is the value of `$MOA_TOKEN`.
pub fn load_token(variable: Option<&str>, file: TokenFile) -> (r: TokenStep)
    ensures
        r@ == token_used(slice_text(variable), file@),
{
    if let Some(s) = variable {
        let token: String = trim(s);
        if !token.as_str().is_empty() {
            return TokenStep::Use(token);
        }
    }
    match file {
        TokenFile::NotRead => TokenStep::ReadFile,
        TokenFile::Unreadable => TokenStep::Fail(
            Failure::rejected(
                "You are not logged in. Run `moa-submitter login` first.".to_owned(),
            ),
        ),
        TokenFile::Content(s) => {
            let token: String = trim(s);
            if token.as_str().is_empty() {
                TokenStep::Fail(
                    Failure::rejected(
                        "Your stored token is empty. Run `moa-submitter login` again.".to_owned(),
                    ),
                )
            } else {
                TokenStep::Use(token)
            }
        },
    }
}

proof fn lemma_trimmed_start_newline(s: Seq<char>, c: char)
    requires
        is_white_space(c),
    ensures
        trimmed_start(s.push(c)) == if trimmed_start(s).len() == 0 {
            Seq::empty()
        } else {
            trimmed_start(s).push(c)
        },
    decreases s.len(),
{
    if s.len() == 0 {
        reveal_with_fuel(trimmed_start, 2);
        assert(s.push(c).drop_first() =~= Seq::<char>::empty());
    } else {
        assert(s.push(c).drop_first() == s.drop_first().push(c));
        lemma_trimmed_start_newline(s.drop_first(), c);
    }
}

/// White space behind a text makes no difference once it is trimmed.
proof fn lemma_trimmed_push(s: Seq<char>, c: char)
    requires
        is_white_space(c),
    ensures
        trimmed(s.push(c)) == trimmed(s),
{
    lemma_trimmed_start_newline(s, c);
    let t = trimmed_start(s);
    assert(t.push(c).drop_last() == t);
    if t.len() == 0 {
        assert(t == Seq::<char>::empty());
    }
}

/// What was stored is what is used: after a login has stored a token, a command without
/// a usable `$MOA_TOKEN` uses it, without the white space around it.
pub proof fn law_stored_token_is_used(variable: Option<Seq<char>>, token: Seq<char>)
    requires
        variable matches Some(s) ==> trimmed(s).len() == 0,
        trimmed(token).len() > 0,
    ensures
        token_used(variable, TokenFileView::Content(token_line(token))) == TokenStepView::Use(
            trimmed(token),
        ),
        trimmed(token) == token ==> token_used(
            variable,
            TokenFileView::Content(token_line(token)),
        ) == TokenStepView::Use(token),
{
    reveal_strlit("\n");
    assert(token_line(token) =~= token.push('\n'));
    lemma_trimmed_push(token, '\n');
}

/// The environment comes first: a token in `$MOA_TOKEN` is used whatever the file holds.
pub proof fn law_environment_token_wins(variable: Seq<char>, file: TokenFileView)
    requires
        trimmed(variable).len() > 0,
    ensures
        token_used(Some(variable), file) == TokenStepView::Use(trimmed(variable)),
{
}

proof fn lemma_trimmed_end_edge(s: Seq<char>)
    ensures
        trimmed_end(s).len() > 0 ==> {
            &&& !is_white_space(trimmed_end(s).last())
            &&& trimmed_end(s).first() == s.first()
        },
    decreases s.len(),
{
    if s.len() > 0 && is_white_space(s.last()) {
        lemma_trimmed_end_edge(s.drop_last());
        if s.len() == 1 {
            assert(s.drop_last().len() == 0);
        }
    }
}

proof fn lemma_trimmed_start_edge(s: Seq<char>)
    ensures
        trimmed_start(s).len() > 0 ==> !is_white_space(trimmed_start(s).first()),
    decreases s.len(),
{
    if s.len() > 0 && is_white_space(s.first()) {
        lemma_trimmed_start_edge(s.drop_first());
    }
}

/// A token that is used is never empty, and has no white space at either end.
pub proof fn law_used_token_is_clean(variable: Option<Seq<char>>, file: TokenFileView)
    ensures
        token_used(variable, file) matches TokenStepView::Use(token) ==> {
            &&& token.len() > 0
            &&& !is_white_space(token.first())
            &&& !is_white_space(token.last())
        },
{
    if let Some(s) = variable {
        lemma_trimmed_end_edge(trimmed_start(s));
        lemma_trimmed_start_edge(s);
    }
    if let TokenFileView::Content(s) = file {
        lemma_trimmed_end_edge(trimmed_start(s));
        lemma_trimmed_start_edge(s);
    }
}

/// The configuration lies below `$XDG_CONFIG_HOME` wherever that is set to something, and
/// else below `$HOME`; how long the values are and what the other one says makes no
/// difference. The token is one more name below it.
pub proof fn law_configuration_place(xdg: Option<usize>, home: Option<usize>)
    ensures
        ({
            let (at, file) = (config_at(xdg, home), token_at(xdg, home));
            &&& if xdg matches Some(n) && n > 0 {
                &&& at == config_at(Some(1), None)
                &&& at matches Ok(dir) && dir.base is XdgConfigHome
            } else if home matches Some(n) && n > 0 {
                &&& at == config_at(None, Some(1))
                &&& at matches Ok(dir) && dir.base is Home
            } else {
                at == config_at(None, None) && at is Err
            }
            &&& match at {
                Ok(dir) => file matches Ok(path) && path.base == dir.base && path.names.len()
                    == dir.names.len() + 1 && path.names.drop_last() == dir.names
                    && path.names.last() == token_at(Some(1), None)->Ok_0.names.last(),
                Err(failure) => file == Err::<ConfigPathView, FailureView>(failure),
            }
        }),
{
    if let Ok(dir) = config_at(xdg, home) {
        assert(token_at(xdg, home)->Ok_0.names.drop_last() =~= dir.names);
    }
}

/// What is written holds all of the token between the same words, and so does what is said
/// where it could not be stored.
pub proof fn law_token_file_holds_the_token(
    token: Seq<char>,
    other: Seq<char>,
    step: StoreStep,
    display: (Seq<char>, Seq<char>),
    reason: (Seq<char>, Seq<char>),
)
    ensures
        same_words(token_line(token), seq![token], token_line(other), seq![other]),
        told_alike(
            not_stored(step, display.0, reason.0),
            seq![display.0, reason.0],
            not_stored(step, display.1, reason.1),
            seq![display.1, reason.1],
        ),
{
    let no = Seq::<char>::empty();
    lemma_same_words(no, "\n"@, token, other);
    assert(no + token + "\n"@ =~= token_line(token));
    assert(no + other + "\n"@ =~= token_line(other));
    let word = match step {
        StoreStep::CreateDirectory => "Cannot create "@,
        StoreStep::WriteFile => "Cannot write "@,
    };
    lemma_same_words_two(word, ": "@, no, (display.0, reason.0), (display.1, reason.1));
    assert(word + display.0 + ": "@ + reason.0 + no =~= word + display.0 + ": "@ + reason.0);
    assert(word + display.1 + ": "@ + reason.1 + no =~= word + display.1 + ": "@ + reason.1);
}

/// A variable that is not set, or holds only white space, makes no difference. Then the
/// file has to be read; if it holds more than white space, that is the token, without the
/// white space around it; and else the command fails, always in the same way.
pub proof fn law_token_comes_from_the_file(variable: Option<Seq<char>>, content: Seq<char>)
    requires
        variable matches Some(s) ==> forall|i: int|
            0 <= i < s.len() ==> is_white_space(#[trigger] s[i]),
    ensures
        token_used(variable, TokenFileView::NotRead) is ReadFile,
        token_used(variable, TokenFileView::Unreadable) is Fail,
        token_used(variable, TokenFileView::Unreadable) == token_used(
            None,
            TokenFileView::Unreadable,
        ),
        token_used(variable, TokenFileView::Content(content)) == if exists|i: int|
            0 <= i < content.len() && !is_white_space(#[trigger] content[i]) {
            TokenStepView::Use(trimmed(content))
        } else {
            token_used(None, TokenFileView::Content(Seq::empty()))
        },
        token_used(None, TokenFileView::Content(Seq::empty())) is Fail,
{
    if let Some(s) = variable {
        law_trimmed(s);
    }
    law_trimmed(content);
    law_trimmed(Seq::<char>::empty());
}

/// What is seen of the steps and of the file is what they hold.
pub proof fn law_token_views(token: String, failure: Failure, content: &str, path: ConfigPath)
    ensures
        TokenStep::Use(token)@ == TokenStepView::Use(token@),
        TokenStep::ReadFile@ is ReadFile,
        TokenStep::Fail(failure)@ == TokenStepView::Fail(failure@),
        TokenFile::Content(content)@ == TokenFileView::Content(content@),
        TokenFile::NotRead@ is NotRead,
        TokenFile::Unreadable@ is Unreadable,
        path@.base == path.base,
        path@.names == texts(path.names@),
{
}

} // verus!

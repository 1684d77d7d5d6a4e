//! What a chaperone is told to be.

use vstd::prelude::*;
use vstd::string::*;

use crate::text::same_text;
use crate::wire::Wire;

verus! {

/// What a chaperone does.
#[derive(Debug, Clone, Copy, PartialEq, Eq, Structural)]
pub enum ChaperoneMode {
    /// It keeps terminals.
    PtyOnly,
    /// It speaks for an agent on the chat server.
    Matrix,
}

/// What a chaperone is told to be.
#[derive(Debug, Clone)]
pub struct ChaperoneConfig {
    /// The name of the user or the agent.
    pub name: String,
    /// What it does.
    pub mode: ChaperoneMode,
    /// The directory that an agent works in.
    pub cwd: Option<String>,
}

/// What a chaperone is told to be, as a value.
pub struct ChaperoneConfigModel {
    pub name: Seq<char>,
    pub mode: ChaperoneMode,
    pub cwd: Option<Seq<char>>,
}

impl View for ChaperoneConfig {
    type V = ChaperoneConfigModel;

    open spec fn view(&self) -> ChaperoneConfigModel {
        ChaperoneConfigModel { name: self.name@, mode: self.mode, cwd: self.cwd.model() }
    }
}

/// What is wrong with a configuration.
#[derive(Debug, Clone, Copy, PartialEq, Eq, Structural)]
pub enum ConfigError {
    /// There is no name.
    NoName,
    /// There is no mode.
    NoMode,
    /// There is no such mode.
    UnknownMode,
}

/// The mode that a word stands for.
pub open spec fn mode_named(word: Seq<char>) -> Option<ChaperoneMode> {
    if word == "pty-only"@ {
        Some(ChaperoneMode::PtyOnly)
    } else if word == "matrix"@ {
        Some(ChaperoneMode::Matrix)
    } else {
        None
    }
}

/// The configuration that its entries make, or what is wrong with them: a name and a mode
/// must be there.
pub open spec fn config_of(
    name: Option<Seq<char>>,
    mode: Option<Seq<char>>,
    cwd: Option<Seq<char>>,
) -> Result<ChaperoneConfigModel, ConfigError> {
    match (name, mode) {
        (None, _) => Err(ConfigError::NoName),
        (Some(_), None) => Err(ConfigError::NoMode),
        (Some(n), Some(m)) => match mode_named(m) {
            Some(mode) => Ok(ChaperoneConfigModel { name: n, mode, cwd }),
            None => Err(ConfigError::UnknownMode),
        },
    }
}

/// A configuration or an error, as a value.
pub open spec fn config_result(r: Result<ChaperoneConfig, ConfigError>) -> Result<
    ChaperoneConfigModel,
    ConfigError,
> {
    match r {
        Ok(c) => Ok(c@),
        Err(e) => Err(e),
    }
}

impl ChaperoneConfig {
    /// The configuration that its entries make.
    pub fn from_parts(
        name: Option<String>,
        mode: Option<String>,
        cwd: Option<String>,
    ) -> (r: Result<ChaperoneConfig, ConfigError>)
        ensures
            config_result(r) == config_of(name.model(), mode.model(), cwd.model()),
    {
        let name = match name {
            Some(n) => n,
            None => {
                return Err(ConfigError::NoName);
            },
        };
        let word = match mode {
            Some(m) => m,
            None => {
                return Err(ConfigError::NoMode);
            },
        };
        let mode = if same_text(word.as_str(), "pty-only") {
            ChaperoneMode::PtyOnly
        } else if same_text(word.as_str(), "matrix") {
            ChaperoneMode::Matrix
        } else {
            return Err(ConfigError::UnknownMode);
        };
        Ok(ChaperoneConfig { name, mode, cwd })
    }
}

/// A chaperone needs a name and one of two modes; its directory is the one that is set, if one is.
pub proof fn law_what_chaperones_need(
    name: Seq<char>,
    mode: Option<Seq<char>>,
    word: Seq<char>,
    cwd: Option<Seq<char>>,
)
    ensures
        config_of(None, mode, cwd) == Err::<ChaperoneConfigModel, ConfigError>(ConfigError::NoName),
        config_of(Some(name), None, cwd) == Err::<ChaperoneConfigModel, ConfigError>(ConfigError::NoMode),
        config_of(Some(name), Some("pty-only"@), cwd) == Ok::<ChaperoneConfigModel, ConfigError>(
            ChaperoneConfigModel { name, mode: ChaperoneMode::PtyOnly, cwd },
        ),
        config_of(Some(name), Some("matrix"@), cwd) == Ok::<ChaperoneConfigModel, ConfigError>(
            ChaperoneConfigModel { name, mode: ChaperoneMode::Matrix, cwd },
        ),
        word != "pty-only"@ && word != "matrix"@ ==> config_of(Some(name), Some(word), cwd) == Err::<
            ChaperoneConfigModel,
            ConfigError,
        >(ConfigError::UnknownMode),
{
    reveal_strlit("pty-only");
    reveal_strlit("matrix");
    assert("pty-only"@.len() == 8 && "matrix"@.len() == 6);
}

} // verus!

use vstd::prelude::*;

verus! {

use vstd::string::StringExecFns;

// The configuration the engine needs from the repository: the signer's
// identity, the editor command, the metadata attachment namespace (which
// must be the one rewritten across history edits, or annotations would
// silently detach), and the default remote. The raw values come from the
// repository's configuration store; assembling and validating them is the
// library's own logic.
#[derive(Debug, PartialEq, Eq)]
pub struct User {
    pub email: String,
    pub name: String,
}

#[derive(Debug, PartialEq, Eq)]
pub struct Core {
    pub editor: String,
}

#[derive(Debug, PartialEq, Eq)]
pub struct Yggit {
    /// Default upstream of a branch, when a target names no origin.
    pub default_upstream: String,
}

#[derive(Debug, PartialEq, Eq)]
pub struct GitConfig {
    pub user: User,
    pub core: Core,
    pub yggit: Yggit,
}

#[derive(Debug, PartialEq, Eq)]
pub enum ConfigError {
    CannotReadConfig,
    EmailNotFound,
    NameNotFound,
    EditorNotFound,
    RewriteRefNotFound,
    WrongRewriteRefValue,
}

impl ConfigError {
    /// The error's message, one line.
    pub fn message(&self) -> (r: String)
        ensures
            match self {
                ConfigError::CannotReadConfig => r@ == "Cannot open git config"@,
                ConfigError::EmailNotFound => r@ == "email not found in configuration"@,
                ConfigError::NameNotFound => r@ == "name not found in configuration"@,
                ConfigError::EditorNotFound => r@ == "editor not found in configuration"@,
                ConfigError::RewriteRefNotFound => r@ == "notes.rewriteRef wasn't found"@,
                ConfigError::WrongRewriteRefValue => r@
                    == "rewriteRef should be set to \"refs/notes/commits\""@,
            },
    {
        match self {
            ConfigError::CannotReadConfig => String::from_str("Cannot open git config"),
            ConfigError::EmailNotFound => String::from_str("email not found in configuration"),
            ConfigError::NameNotFound => String::from_str("name not found in configuration"),
            ConfigError::EditorNotFound => String::from_str("editor not found in configuration"),
            ConfigError::RewriteRefNotFound => String::from_str("notes.rewriteRef wasn't found"),
            ConfigError::WrongRewriteRefValue => String::from_str(
                "rewriteRef should be set to \"refs/notes/commits\"",
            ),
        }
    }
}

/// Getters on an assembled configuration.
pub trait Config {
    fn name(&self) -> &String;

    fn email(&self) -> &String;

    fn editor(&self) -> &String;
}

impl Config for GitConfig {
    fn name(&self) -> &String {
        &self.user.name
    }

    fn email(&self) -> &String {
        &self.user.email
    }

    fn editor(&self) -> &String {
        &self.core.editor
    }
}

/// The assembled configuration, as a function of the raw values read from
/// the configuration store and the editor named by the environment:
/// - `user.email` and `user.name` are required, in that order of checking;
/// - `core.editor` falls back to the environment's editor;
/// - `notes.rewriteRef` is required and must be `refs/notes/commits`;
/// - `yggit.defaultUpstream` defaults to `origin`.
pub open spec fn spec_assemble_config(
    email: Option<Seq<char>>,
    name: Option<Seq<char>>,
    editor: Option<Seq<char>>,
    env_editor: Option<Seq<char>>,
    rewrite_ref: Option<Seq<char>>,
    default_upstream: Option<Seq<char>>,
) -> Result<(Seq<char>, Seq<char>, Seq<char>, Seq<char>), ConfigError> {
    if email is None {
        Err(ConfigError::EmailNotFound)
    } else if name is None {
        Err(ConfigError::NameNotFound)
    } else if editor is None && env_editor is None {
        Err(ConfigError::EditorNotFound)
    } else if rewrite_ref is None {
        Err(ConfigError::RewriteRefNotFound)
    } else if rewrite_ref != Some("refs/notes/commits"@) {
        Err(ConfigError::WrongRewriteRefValue)
    } else {
        let ed = match editor {
            Some(e) => e,
            None => env_editor.unwrap(),
        };
        let up = match default_upstream {
            Some(u) => u,
            None => "origin"@,
        };
        Ok((email.unwrap(), name.unwrap(), ed, up))
    }
}

/// Compare a string against a string literal's characters.
fn str_eq_lit(s: &String, lit: &str) -> (r: bool)
    ensures
        r == (s@ == lit@),
{
    let other = lit.to_owned();
    s.eq(&other)
}

/// Assemble and validate a configuration from the raw values read from
/// the repository's configuration and from the environment.
pub fn assemble_config(
    email: Option<String>,
    name: Option<String>,
    editor: Option<String>,
    env_editor: Option<String>,
    rewrite_ref: Option<String>,
    default_upstream: Option<String>,
) -> (r: Result<GitConfig, ConfigError>)
    ensures
        ({
            let spec_r = spec_assemble_config(
                match email {
                    Some(ref e) => Some(e@),
                    None => None,
                },
                match name {
                    Some(ref n) => Some(n@),
                    None => None,
                },
                match editor {
                    Some(ref e) => Some(e@),
                    None => None,
                },
                match env_editor {
                    Some(ref e) => Some(e@),
                    None => None,
                },
                match rewrite_ref {
                    Some(ref w) => Some(w@),
                    None => None,
                },
                match default_upstream {
                    Some(ref u) => Some(u@),
                    None => None,
                },
            );
            match r {
                Ok(ref c) => spec_r == Ok::<_, ConfigError>(
                    (c.user.email@, c.user.name@, c.core.editor@, c.yggit.default_upstream@),
                ),
                Err(ref e) => spec_r == Err::<(Seq<char>, Seq<char>, Seq<char>, Seq<char>), _>(*e),
            }
        }),
{
    let email = match email {
        Some(e) => e,
        None => {
            return Err(ConfigError::EmailNotFound);
        },
    };
    let name = match name {
        Some(n) => n,
        None => {
            return Err(ConfigError::NameNotFound);
        },
    };
    let editor = match editor {
        Some(e) => Some(e),
        None => env_editor,
    };
    let editor = match editor {
        Some(e) => e,
        None => {
            return Err(ConfigError::EditorNotFound);
        },
    };
    let rewrite_ref = match rewrite_ref {
        Some(w) => w,
        None => {
            return Err(ConfigError::RewriteRefNotFound);
        },
    };
    if !str_eq_lit(&rewrite_ref, "refs/notes/commits") {
        return Err(ConfigError::WrongRewriteRefValue);
    }
    let default_upstream = match default_upstream {
        Some(u) => u,
        None => String::from_str("origin"),
    };
    Ok(
        GitConfig {
            user: User { email, name },
            core: Core { editor },
            yggit: Yggit { default_upstream },
        },
    )
}

} // verus!

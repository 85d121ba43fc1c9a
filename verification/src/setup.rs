//! First-run setup: the ordered questions that lead to a configuration.
//!
//! The wizard holds the answers given so far and names the next question.
//! Asking the operator, and creating what the finished plan lists, is left
//! to the caller.

use vstd::prelude::*;
use vstd::string::StringExecFns;
use crate::mode::OperatingMode;

verus! {

/// The configuration of a local cache. It is fixed for the lifetime of a
/// process.
#[derive(Clone, Debug, PartialEq, Eq)]
pub struct Config {
    pub cache_dir: String,
    pub db_path: String,
    pub content_dir: String,
    pub operating_mode: OperatingMode,
}

impl Config {
    /// A configuration of the given parts.
    pub fn new(
        cache_dir: String,
        db_path: String,
        content_dir: String,
        operating_mode: OperatingMode,
    ) -> (config: Config)
        ensures
            config == (Config { cache_dir, db_path, content_dir, operating_mode }),
    {
        Config { cache_dir, db_path, content_dir, operating_mode }
    }
}

/// What a question of the setup asks for.
#[derive(Clone, Copy, Debug, PartialEq, Eq, Structural)]
pub enum SetupField {
    ConfigFile,
    CacheDir,
    Database,
    ContentDir,
}

/// A question with the answer that is offered when the operator gives none.
#[derive(Clone, Copy, Debug, PartialEq, Eq)]
pub struct Prompt {
    pub field: SetupField,
    pub question: &'static str,
    pub default: &'static str,
}

/// The question that asks for `field`.
pub open spec fn prompt_of(field: SetupField) -> Prompt {
    match field {
        SetupField::ConfigFile => Prompt {
            field,
            question: "Where do you want to store your config file?",
            default: ".emphasize/config.yml",
        },
        SetupField::CacheDir => Prompt {
            field,
            question: "Where should your cache directory go?",
            default: ".emphasize/cache",
        },
        SetupField::Database => Prompt {
            field,
            question: "Where should your database file go?",
            default: ".emphasize/content.db",
        },
        SetupField::ContentDir => Prompt {
            field,
            question: "Where should your content directory go?",
            default: "blog",
        },
    }
}

/// The question that asks for `field`.
pub fn prompt_for(field: SetupField) -> (prompt: Prompt)
    ensures
        prompt == prompt_of(field),
{
    match field {
        SetupField::ConfigFile => Prompt {
            field,
            question: "Where do you want to store your config file?",
            default: ".emphasize/config.yml",
        },
        SetupField::CacheDir => Prompt {
            field,
            question: "Where should your cache directory go?",
            default: ".emphasize/cache",
        },
        SetupField::Database => Prompt {
            field,
            question: "Where should your database file go?",
            default: ".emphasize/content.db",
        },
        SetupField::ContentDir => Prompt {
            field,
            question: "Where should your content directory go?",
            default: "blog",
        },
    }
}

/// The directories that a content directory is laid out with.
pub open spec fn content_layout() -> Seq<&'static str> {
    seq!["content", "static", "sass", "templates"]
}

/// The names of the directories to create inside the content directory.
pub fn content_subdirectories() -> (names: Vec<&'static str>)
    ensures
        names@ == content_layout(),
{
    let mut names: Vec<&'static str> = Vec::new();
    names.push("content");
    names.push("static");
    names.push("sass");
    names.push("templates");
    assert(names@ =~= content_layout());
    names
}

/// The characters of a text that may be absent.
pub open spec fn text_of(text: Option<String>) -> Option<Seq<char>> {
    match text {
        Some(given) => Some(given@),
        None => None,
    }
}

/// The answers given so far, as plain values.
pub struct WizardView {
    pub config_file: Option<Seq<char>>,
    pub cache_dir: Option<Seq<char>>,
    pub database: Option<Seq<char>>,
    pub content_dir: Option<Seq<char>>,
}

impl WizardView {
    /// The first field that has no answer yet, in the order in which the
    /// questions are asked.
    pub open spec fn next_field(self) -> Option<SetupField> {
        if self.config_file is None {
            Some(SetupField::ConfigFile)
        } else if self.cache_dir is None {
            Some(SetupField::CacheDir)
        } else if self.database is None {
            Some(SetupField::Database)
        } else if self.content_dir is None {
            Some(SetupField::ContentDir)
        } else {
            None
        }
    }

    /// The answers once `value` was given for `field`.
    pub open spec fn with_answer(self, field: SetupField, value: Seq<char>) -> WizardView {
        match field {
            SetupField::ConfigFile => WizardView { config_file: Some(value), ..self },
            SetupField::CacheDir => WizardView { cache_dir: Some(value), ..self },
            SetupField::Database => WizardView { database: Some(value), ..self },
            SetupField::ContentDir => WizardView { content_dir: Some(value), ..self },
        }
    }

    /// How many questions are still to be asked.
    pub open spec fn open_questions(self) -> nat {
        (if self.config_file is None { 1nat } else { 0nat })
        + (if self.cache_dir is None { 1nat } else { 0nat })
        + (if self.database is None { 1nat } else { 0nat })
        + (if self.content_dir is None { 1nat } else { 0nat })
    }
}

/// What a finished setup asks the caller to write and to create.
#[derive(Clone, Debug, PartialEq, Eq)]
pub struct SetupPlan {
    /// Where the configuration is saved.
    pub config_file: String,
    /// The configuration of the new cache: it is a read-write origin.
    pub config: Config,
    /// The directories to create inside the content directory.
    pub content_subdirectories: Vec<&'static str>,
}

/// The setup wizard.
pub struct SetupWizard {
    config_file: Option<String>,
    cache_dir: Option<String>,
    database: Option<String>,
    content_dir: Option<String>,
}

impl View for SetupWizard {
    type V = WizardView;

    closed spec fn view(&self) -> WizardView {
        WizardView {
            config_file: text_of(self.config_file),
            cache_dir: text_of(self.cache_dir),
            database: text_of(self.database),
            content_dir: text_of(self.content_dir),
        }
    }
}

impl SetupWizard {
    /// A wizard that has no answer but the configuration file, if the
    /// operator named one on the command line.
    pub fn new(config_file: Option<String>) -> (wizard: SetupWizard)
        ensures
            wizard@ == (WizardView {
                config_file: text_of(config_file),
                cache_dir: None,
                database: None,
                content_dir: None,
            }),
    {
        SetupWizard { config_file, cache_dir: None, database: None, content_dir: None }
    }

    /// The field to ask for next, or `None` when every answer is in.
    pub fn next_field(&self) -> (field: Option<SetupField>)
        ensures
            field == self@.next_field(),
    {
        if self.config_file.is_none() {
            Some(SetupField::ConfigFile)
        } else if self.cache_dir.is_none() {
            Some(SetupField::CacheDir)
        } else if self.database.is_none() {
            Some(SetupField::Database)
        } else if self.content_dir.is_none() {
            Some(SetupField::ContentDir)
        } else {
            None
        }
    }

    /// Takes `value` as the answer to the next question and says which
    /// field it went to. With every answer in, nothing changes.
    pub fn answer(&mut self, value: String) -> (field: Option<SetupField>)
        ensures
            field == old(self)@.next_field(),
            match field {
                Some(asked) => final(self)@ == old(self)@.with_answer(asked, value@)
                    && final(self)@.open_questions() + 1 == old(self)@.open_questions(),
                None => final(self)@ == old(self)@,
            },
    {
        let field = self.next_field();
        match field {
            Some(SetupField::ConfigFile) => {
                self.config_file = Some(value);
            },
            Some(SetupField::CacheDir) => {
                self.cache_dir = Some(value);
            },
            Some(SetupField::Database) => {
                self.database = Some(value);
            },
            Some(SetupField::ContentDir) => {
                self.content_dir = Some(value);
            },
            None => {},
        }
        field
    }

    /// Takes the offered default as the answer to the next question.
    pub fn accept_default(&mut self) -> (field: Option<SetupField>)
        ensures
            field == old(self)@.next_field(),
            match field {
                Some(asked) => final(self)@ == old(self)@.with_answer(
                    asked,
                    prompt_of(asked).default@,
                ),
                None => final(self)@ == old(self)@,
            },
    {
        match self.next_field() {
            Some(asked) => self.answer(String::from_str(prompt_for(asked).default)),
            None => None,
        }
    }

    /// The plan of a setup whose questions are all answered, or the wizard
    /// itself while a question is open.
    pub fn finish(self) -> (plan: Result<SetupPlan, SetupWizard>)
        ensures
            plan is Ok <==> self@.next_field() is None,
            match plan {
                Ok(plan) => {
                    &&& Some(plan.config_file@) == self@.config_file
                    &&& Some(plan.config.cache_dir@) == self@.cache_dir
                    &&& Some(plan.config.db_path@) == self@.database
                    &&& Some(plan.config.content_dir@) == self@.content_dir
                    &&& plan.config.operating_mode == OperatingMode::ReadWrite
                    &&& plan.content_subdirectories@ == content_layout()
                },
                Err(wizard) => wizard@ == self@,
            },
    {
        match self {
            SetupWizard {
                config_file: Some(config_file),
                cache_dir: Some(cache_dir),
                database: Some(database),
                content_dir: Some(content_dir),
            } => Ok(
                SetupPlan {
                    config_file,
                    config: Config::new(cache_dir, database, content_dir, OperatingMode::ReadWrite),
                    content_subdirectories: content_subdirectories(),
                },
            ),
            other => Err(other),
        }
    }
}

/// A setup asks at most four questions, in a fixed order, and each answer
/// closes exactly one of them: the configuration file, unless it was named
/// beforehand, then the cache directory, the database file and the content
/// directory.
pub proof fn lemma_setup_order(start: WizardView, a: Seq<char>, b: Seq<char>, c: Seq<char>)
    requires
        start.config_file is Some,
        start.cache_dir is None,
        start.database is None,
        start.content_dir is None,
    ensures
        start.next_field() == Some(SetupField::CacheDir),
        start.with_answer(SetupField::CacheDir, a).next_field() == Some(SetupField::Database),
        start.with_answer(SetupField::CacheDir, a).with_answer(
            SetupField::Database,
            b,
        ).next_field() == Some(SetupField::ContentDir),
        start.with_answer(SetupField::CacheDir, a).with_answer(SetupField::Database, b).with_answer(
            SetupField::ContentDir,
            c,
        ).next_field() is None,
{
}

} // verus!

//! Mail settings: reading them from `key=value` lines and checking that
//! none is missing.

use crate::text::{
    chars_of, lines, spells, split, split_chars, string_of, trim, trimmed, views, Separator,
};
use vstd::prelude::*;

verus! {

/// The file that holds the settings, in the working directory.
pub const SETTINGS_FILE: &'static str = ".env";

/// Who sends the alert, to whom, and through which relay.
#[derive(Clone, Debug)]
pub struct EmailSettings {
    pub from: String,
    pub to: String,
    pub smtp_email: String,
    pub smtp_password: String,
    pub smtp_server: String,
}

/// The settings of one run.
#[derive(Clone, Debug)]
pub struct Config {
    pub email: EmailSettings,
}

/// The five settings as character sequences.
pub ghost struct SettingsText {
    pub from: Seq<char>,
    pub to: Seq<char>,
    pub smtp_email: Seq<char>,
    pub smtp_password: Seq<char>,
    pub smtp_server: Seq<char>,
}

/// A required setting that is empty.
#[derive(Clone, Copy, Debug, PartialEq, Eq, Structural)]
pub enum ConfigError {
    MissingFrom,
    MissingTo,
    MissingSmtpServer,
    MissingSmtpEmail,
    MissingSmtpPassword,
}

/// Settings with nothing set.
pub open spec fn no_settings() -> SettingsText {
    SettingsText {
        from: Seq::empty(),
        to: Seq::empty(),
        smtp_email: Seq::empty(),
        smtp_password: Seq::empty(),
        smtp_server: Seq::empty(),
    }
}

/// `s` with the setting named `key` replaced by `value`; unchanged where
/// `key` names no setting.
pub open spec fn assigned(s: SettingsText, key: Seq<char>, value: Seq<char>) -> SettingsText {
    if key == "from"@ {
        SettingsText { from: value, ..s }
    } else if key == "to"@ {
        SettingsText { to: value, ..s }
    } else if key == "smtp_server"@ {
        SettingsText { smtp_server: value, ..s }
    } else if key == "smtp_email"@ {
        SettingsText { smtp_email: value, ..s }
    } else if key == "smtp_password"@ {
        SettingsText { smtp_password: value, ..s }
    } else {
        s
    }
}

/// `s` after one line: a line with exactly one `=` assigns the trimmed
/// text after it to the setting that the trimmed text before it names;
/// any other line changes nothing.
pub open spec fn after_line(s: SettingsText, line: Seq<char>) -> SettingsText {
    let parts = split(line, Separator::Char('='));
    if parts.len() == 2 {
        assigned(s, trim(parts[0]), trim(parts[1]))
    } else {
        s
    }
}

/// The settings after the lines `ls`, read in order; a later line
/// overrides an earlier one.
pub open spec fn after_lines(ls: Seq<Seq<char>>) -> SettingsText
    decreases ls.len(),
{
    if ls.len() == 0 {
        no_settings()
    } else {
        after_line(after_lines(ls.drop_last()), ls.last())
    }
}

/// The settings that the text `contents` holds.
pub open spec fn settings_in(contents: Seq<char>) -> SettingsText {
    after_lines(lines(contents))
}

/// The required settings that are empty in `s`, in the order in which
/// they are checked.
pub open spec fn missing(s: SettingsText) -> Seq<ConfigError> {
    let e0 = Seq::<ConfigError>::empty();
    let e1 = if s.from.len() == 0 {
        e0.push(ConfigError::MissingFrom)
    } else {
        e0
    };
    let e2 = if s.to.len() == 0 {
        e1.push(ConfigError::MissingTo)
    } else {
        e1
    };
    let e3 = if s.smtp_server.len() == 0 {
        e2.push(ConfigError::MissingSmtpServer)
    } else {
        e2
    };
    let e4 = if s.smtp_email.len() == 0 {
        e3.push(ConfigError::MissingSmtpEmail)
    } else {
        e3
    };
    if s.smtp_password.len() == 0 {
        e4.push(ConfigError::MissingSmtpPassword)
    } else {
        e4
    }
}

/// Nothing is missing exactly when each of the five settings is set.
pub proof fn lemma_nothing_missing(s: SettingsText)
    ensures
        missing(s).len() == 0 <==> (s.from.len() > 0 && s.to.len() > 0 && s.smtp_server.len() > 0
            && s.smtp_email.len() > 0 && s.smtp_password.len() > 0),
{
}

impl ConfigError {
    /// The text of the complaint.
    pub open spec fn message_text(self) -> Seq<char> {
        match self {
            ConfigError::MissingFrom => "Missing 'from' email address"@,
            ConfigError::MissingTo => "Missing 'to' email address"@,
            ConfigError::MissingSmtpServer => "Missing 'smtp_server' email address"@,
            ConfigError::MissingSmtpEmail => "Missing 'smtp_email' email address"@,
            ConfigError::MissingSmtpPassword => "Missing 'smtp_password' email address"@,
        }
    }

    /// The complaint in words.
    pub fn message(&self) -> (s: String)
        ensures
            s@ == self.message_text(),
    {
        match self {
            ConfigError::MissingFrom => "Missing 'from' email address".to_owned(),
            ConfigError::MissingTo => "Missing 'to' email address".to_owned(),
            ConfigError::MissingSmtpServer => "Missing 'smtp_server' email address".to_owned(),
            ConfigError::MissingSmtpEmail => "Missing 'smtp_email' email address".to_owned(),
            ConfigError::MissingSmtpPassword => "Missing 'smtp_password' email address".to_owned(),
        }
    }
}

impl EmailSettings {
    /// The five settings as character sequences.
    pub open spec fn text(&self) -> SettingsText {
        SettingsText {
            from: self.from@,
            to: self.to@,
            smtp_email: self.smtp_email@,
            smtp_password: self.smtp_password@,
            smtp_server: self.smtp_server@,
        }
    }

    /// Settings with nothing set.
    pub fn empty() -> (s: EmailSettings)
        ensures
            s.text() == no_settings(),
    {
        EmailSettings {
            from: String::new(),
            to: String::new(),
            smtp_email: String::new(),
            smtp_password: String::new(),
            smtp_server: String::new(),
        }
    }

    /// Takes one line in, as [`after_line`] says.
    pub fn apply_line(&mut self, line: &Vec<char>)
        ensures
            final(self).text() == after_line(old(self).text(), line@),
    {
        let parts = split_chars(line, Separator::Char('='));
        if parts.len() != 2 {
            return ;
        }
        assert(views(parts@)[0] == parts@[0]@);
        assert(views(parts@)[1] == parts@[1]@);
        let key = trimmed(&parts[0]);
        let value = string_of(&trimmed(&parts[1]));
        if spells(&key, "from") {
            self.from = value;
        } else if spells(&key, "to") {
            self.to = value;
        } else if spells(&key, "smtp_server") {
            self.smtp_server = value;
        } else if spells(&key, "smtp_email") {
            self.smtp_email = value;
        } else if spells(&key, "smtp_password") {
            self.smtp_password = value;
        }
    }
}

impl Config {
    /// The settings that `contents` holds, as [`settings_in`] says, with
    /// nothing checked.
    pub fn parse(contents: &str) -> (config: Config)
        ensures
            config.email.text() == settings_in(contents@),
    {
        let chars = chars_of(contents);
        let ls = split_chars(&chars, Separator::Char('\n'));
        let mut email = EmailSettings::empty();
        let mut i: usize = 0;
        while i < ls.len()
            invariant
                i <= ls.len(),
                email.text() == after_lines(views(ls@).take(i as int)),
            decreases ls.len() - i,
        {
            proof {
                let t = views(ls@).take(i + 1);
                assert(t.drop_last() == views(ls@).take(i as int));
                assert(t.last() == ls@[i as int]@);
            }
            email.apply_line(&ls[i]);
            i += 1;
        }
        assert(views(ls@).take(ls.len() as int) == views(ls@));
        Config { email }
    }

    /// The required settings that are empty, as [`missing`] says.
    pub fn validate(&self) -> (errors: Vec<ConfigError>)
        ensures
            errors@ == missing(self.email.text()),
    {
        let mut errors: Vec<ConfigError> = Vec::new();
        if self.email.from.as_str().is_empty() {
            errors.push(ConfigError::MissingFrom);
        }
        if self.email.to.as_str().is_empty() {
            errors.push(ConfigError::MissingTo);
        }
        if self.email.smtp_server.as_str().is_empty() {
            errors.push(ConfigError::MissingSmtpServer);
        }
        if self.email.smtp_email.as_str().is_empty() {
            errors.push(ConfigError::MissingSmtpEmail);
        }
        if self.email.smtp_password.as_str().is_empty() {
            errors.push(ConfigError::MissingSmtpPassword);
        }
        errors
    }

    /// Reads the settings from the text of a settings file and checks
    /// them: `Ok` exactly when none of the five is missing, else the
    /// missing ones in the order in which they are checked.
    pub fn read(contents: &str) -> (outcome: Result<Config, Vec<ConfigError>>)
        ensures
            match outcome {
                Ok(config) => missing(settings_in(contents@)).len() == 0
                    && config.email.text() == settings_in(contents@),
                Err(errors) => errors@.len() > 0 && errors@ == missing(settings_in(contents@)),
            },
    {
        let config = Config::parse(contents);
        let errors = config.validate();
        if errors.len() > 0 {
            Err(errors)
        } else {
            Ok(config)
        }
    }
}

} // verus!

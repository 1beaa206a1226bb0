//! The preprocessor's symbol configuration: a mapping from characters to
//! the roles they play in the input language.

use vstd::prelude::*;

verus! {

/// The role a configured character plays for the tokenizer.
///
/// Several characters may share the `Operator` role; every other role is
/// carried by exactly one character, distinct from all other configured
/// characters.
#[derive(Clone, Copy, Debug, PartialEq, Eq, Structural)]
pub enum ConfigField {
    Operator,
    GroupStartDelimiter,
    GroupEndDelimiter,
    NumberPrefix,
    MacroPrefix,
    EscapePrefix,
}

/// Error returned when constructing a [`Config`].
///
/// `NotUnique(offered, existing)` says the character offered for role
/// `offered` already carries role `existing`. `FromRon` carries the message
/// of a failed configuration-file parse, produced outside this crate.
#[derive(Debug)]
pub enum Error {
    NotUnique(ConfigField, ConfigField),
    FromRon(String),
}

/// Symbol configuration consumed by the tokenizer: which characters are
/// operators, group delimiters and prefixes.
///
/// A configuration built by [`Config::new`] or [`Config::default`] is
/// well formed ([`Config::wf`]): the five non-operator characters are
/// pairwise distinct and none of them is also an operator.
#[derive(Debug)]
pub struct Config {
    pub operators: Vec<char>,
    pub group_start_delimiter: char,
    pub group_end_delimiter: char,
    pub number_prefix: char,
    pub macro_prefix: char,
    pub escape_prefix: char,
}

/// The first collision found when the roles are assigned in the order
/// group start, group end, number prefix, macro prefix, escape prefix,
/// each checked against the roles assigned before it: the pair is
/// (role being assigned, role its character already carries).
pub open spec fn first_collision(
    operators: Seq<char>,
    group_start: char,
    group_end: char,
    number: char,
    mac: char,
    escape: char,
) -> Option<(ConfigField, ConfigField)> {
    if operators.contains(group_start) {
        Some((ConfigField::GroupStartDelimiter, ConfigField::Operator))
    } else if group_end == group_start {
        Some((ConfigField::GroupEndDelimiter, ConfigField::GroupStartDelimiter))
    } else if operators.contains(group_end) {
        Some((ConfigField::GroupEndDelimiter, ConfigField::Operator))
    } else if number == group_start {
        Some((ConfigField::NumberPrefix, ConfigField::GroupStartDelimiter))
    } else if number == group_end {
        Some((ConfigField::NumberPrefix, ConfigField::GroupEndDelimiter))
    } else if operators.contains(number) {
        Some((ConfigField::NumberPrefix, ConfigField::Operator))
    } else if mac == group_start {
        Some((ConfigField::MacroPrefix, ConfigField::GroupStartDelimiter))
    } else if mac == group_end {
        Some((ConfigField::MacroPrefix, ConfigField::GroupEndDelimiter))
    } else if mac == number {
        Some((ConfigField::MacroPrefix, ConfigField::NumberPrefix))
    } else if operators.contains(mac) {
        Some((ConfigField::MacroPrefix, ConfigField::Operator))
    } else if escape == group_start {
        Some((ConfigField::EscapePrefix, ConfigField::GroupStartDelimiter))
    } else if escape == group_end {
        Some((ConfigField::EscapePrefix, ConfigField::GroupEndDelimiter))
    } else if escape == number {
        Some((ConfigField::EscapePrefix, ConfigField::NumberPrefix))
    } else if escape == mac {
        Some((ConfigField::EscapePrefix, ConfigField::MacroPrefix))
    } else if operators.contains(escape) {
        Some((ConfigField::EscapePrefix, ConfigField::Operator))
    } else {
        None
    }
}

impl Config {
    /// The role of a character, if it has one. The five single-character
    /// roles take precedence in this definition; on a well-formed
    /// configuration no character carries two roles, so the precedence
    /// never decides anything.
    pub open spec fn role_of(&self, c: char) -> Option<ConfigField> {
        if c == self.group_start_delimiter {
            Some(ConfigField::GroupStartDelimiter)
        } else if c == self.group_end_delimiter {
            Some(ConfigField::GroupEndDelimiter)
        } else if c == self.number_prefix {
            Some(ConfigField::NumberPrefix)
        } else if c == self.macro_prefix {
            Some(ConfigField::MacroPrefix)
        } else if c == self.escape_prefix {
            Some(ConfigField::EscapePrefix)
        } else if self.operators@.contains(c) {
            Some(ConfigField::Operator)
        } else {
            None
        }
    }

    /// Well-formedness: the five non-operator characters are pairwise
    /// distinct and none of them is also an operator.
    pub open spec fn wf(&self) -> bool {
        &&& self.group_start_delimiter != self.group_end_delimiter
        &&& self.group_start_delimiter != self.number_prefix
        &&& self.group_start_delimiter != self.macro_prefix
        &&& self.group_start_delimiter != self.escape_prefix
        &&& self.group_end_delimiter != self.number_prefix
        &&& self.group_end_delimiter != self.macro_prefix
        &&& self.group_end_delimiter != self.escape_prefix
        &&& self.number_prefix != self.macro_prefix
        &&& self.number_prefix != self.escape_prefix
        &&& self.macro_prefix != self.escape_prefix
        &&& !self.operators@.contains(self.group_start_delimiter)
        &&& !self.operators@.contains(self.group_end_delimiter)
        &&& !self.operators@.contains(self.number_prefix)
        &&& !self.operators@.contains(self.macro_prefix)
        &&& !self.operators@.contains(self.escape_prefix)
    }

    /// The canonical character of a role, as [`Config::get_value`] returns
    /// it. For the `Operator` role it is the first configured operator.
    pub open spec fn value_of(&self, field: ConfigField) -> char {
        match field {
            ConfigField::Operator => self.operators@[0],
            ConfigField::GroupStartDelimiter => self.group_start_delimiter,
            ConfigField::GroupEndDelimiter => self.group_end_delimiter,
            ConfigField::NumberPrefix => self.number_prefix,
            ConfigField::MacroPrefix => self.macro_prefix,
            ConfigField::EscapePrefix => self.escape_prefix,
        }
    }

    /// Initialize a new configuration; returns an error naming the two
    /// colliding roles if the passed characters are not unique.
    pub fn new(
        operators: Vec<char>,
        group_start_delimiter: char,
        group_end_delimiter: char,
        number_prefix: char,
        macro_prefix: char,
        escape_prefix: char,
    ) -> (r: Result<Config, Error>)
        ensures
            match r {
                Ok(cfg) => {
                    &&& first_collision(
                        operators@,
                        group_start_delimiter,
                        group_end_delimiter,
                        number_prefix,
                        macro_prefix,
                        escape_prefix,
                    ) is None
                    &&& cfg.wf()
                    &&& cfg.operators@ == operators@
                    &&& cfg.group_start_delimiter == group_start_delimiter
                    &&& cfg.group_end_delimiter == group_end_delimiter
                    &&& cfg.number_prefix == number_prefix
                    &&& cfg.macro_prefix == macro_prefix
                    &&& cfg.escape_prefix == escape_prefix
                },
                Err(e) => {
                    &&& first_collision(
                        operators@,
                        group_start_delimiter,
                        group_end_delimiter,
                        number_prefix,
                        macro_prefix,
                        escape_prefix,
                    ) matches Some(pair) && e == Error::NotUnique(pair.0, pair.1)
                },
            },
    {
        if vec_contains_char(&operators, group_start_delimiter) {
            return Err(Error::NotUnique(ConfigField::GroupStartDelimiter, ConfigField::Operator));
        }
        if group_end_delimiter == group_start_delimiter {
            return Err(Error::NotUnique(
                ConfigField::GroupEndDelimiter,
                ConfigField::GroupStartDelimiter,
            ));
        }
        if vec_contains_char(&operators, group_end_delimiter) {
            return Err(Error::NotUnique(ConfigField::GroupEndDelimiter, ConfigField::Operator));
        }
        if number_prefix == group_start_delimiter {
            return Err(Error::NotUnique(
                ConfigField::NumberPrefix,
                ConfigField::GroupStartDelimiter,
            ));
        }
        if number_prefix == group_end_delimiter {
            return Err(Error::NotUnique(
                ConfigField::NumberPrefix,
                ConfigField::GroupEndDelimiter,
            ));
        }
        if vec_contains_char(&operators, number_prefix) {
            return Err(Error::NotUnique(ConfigField::NumberPrefix, ConfigField::Operator));
        }
        if macro_prefix == group_start_delimiter {
            return Err(Error::NotUnique(
                ConfigField::MacroPrefix,
                ConfigField::GroupStartDelimiter,
            ));
        }
        if macro_prefix == group_end_delimiter {
            return Err(Error::NotUnique(
                ConfigField::MacroPrefix,
                ConfigField::GroupEndDelimiter,
            ));
        }
        if macro_prefix == number_prefix {
            return Err(Error::NotUnique(ConfigField::MacroPrefix, ConfigField::NumberPrefix));
        }
        if vec_contains_char(&operators, macro_prefix) {
            return Err(Error::NotUnique(ConfigField::MacroPrefix, ConfigField::Operator));
        }
        if escape_prefix == group_start_delimiter {
            return Err(Error::NotUnique(
                ConfigField::EscapePrefix,
                ConfigField::GroupStartDelimiter,
            ));
        }
        if escape_prefix == group_end_delimiter {
            return Err(Error::NotUnique(
                ConfigField::EscapePrefix,
                ConfigField::GroupEndDelimiter,
            ));
        }
        if escape_prefix == number_prefix {
            return Err(Error::NotUnique(ConfigField::EscapePrefix, ConfigField::NumberPrefix));
        }
        if escape_prefix == macro_prefix {
            return Err(Error::NotUnique(ConfigField::EscapePrefix, ConfigField::MacroPrefix));
        }
        if vec_contains_char(&operators, escape_prefix) {
            return Err(Error::NotUnique(ConfigField::EscapePrefix, ConfigField::Operator));
        }
        Ok(Config {
            operators,
            group_start_delimiter,
            group_end_delimiter,
            number_prefix,
            macro_prefix,
            escape_prefix,
        })
    }

    /// Get the field associated with the passed value (if there is one).
    pub fn get_field(&self, ch: char) -> (r: Option<ConfigField>)
        ensures
            r == self.role_of(ch),
    {
        if ch == self.group_start_delimiter {
            Some(ConfigField::GroupStartDelimiter)
        } else if ch == self.group_end_delimiter {
            Some(ConfigField::GroupEndDelimiter)
        } else if ch == self.number_prefix {
            Some(ConfigField::NumberPrefix)
        } else if ch == self.macro_prefix {
            Some(ConfigField::MacroPrefix)
        } else if ch == self.escape_prefix {
            Some(ConfigField::EscapePrefix)
        } else if vec_contains_char(&self.operators, ch) {
            Some(ConfigField::Operator)
        } else {
            None
        }
    }

    /// Get the value associated with the passed field. For the `Operator`
    /// role, which may be carried by several characters, the first
    /// configured operator is returned; asking for it requires that at
    /// least one operator is configured.
    pub fn get_value(&self, field: &ConfigField) -> (r: char)
        requires
            *field is Operator ==> self.operators@.len() > 0,
        ensures
            r == self.value_of(*field),
    {
        match field {
            ConfigField::Operator => self.operators[0],
            ConfigField::GroupStartDelimiter => self.group_start_delimiter,
            ConfigField::GroupEndDelimiter => self.group_end_delimiter,
            ConfigField::NumberPrefix => self.number_prefix,
            ConfigField::MacroPrefix => self.macro_prefix,
            ConfigField::EscapePrefix => self.escape_prefix,
        }
    }
}

/// The default symbol set: operators `+-<>[].,`, group delimiters `(` and
/// `)`, number prefix `#`, macro prefix `$`, escape prefix `\`.
pub open spec fn default_operators() -> Seq<char> {
    seq!['+', '-', '<', '>', '[', ']', '.', ',']
}

impl Default for Config {
    /// The default configuration: the default symbol set above.
    fn default() -> (r: Self)
        ensures
            r.wf(),
            r.operators@ == default_operators(),
            r.group_start_delimiter == '(',
            r.group_end_delimiter == ')',
            r.number_prefix == '#',
            r.macro_prefix == '$',
            r.escape_prefix == '\\',
    {
        let mut operators: Vec<char> = Vec::new();
        operators.push('+');
        operators.push('-');
        operators.push('<');
        operators.push('>');
        operators.push('[');
        operators.push(']');
        operators.push('.');
        operators.push(',');
        proof {
            assert(operators@ =~= default_operators());
            assert(forall|i: int|
                0 <= i < default_operators().len() ==> default_operators()[i] != '('
                    && default_operators()[i] != ')' && default_operators()[i] != '#'
                    && default_operators()[i] != '$' && default_operators()[i] != '\\');
        }
        Config {
            operators,
            group_start_delimiter: '(',
            group_end_delimiter: ')',
            number_prefix: '#',
            macro_prefix: '$',
            escape_prefix: '\\',
        }
    }
}

/// Whether a character occurs in a vector of characters.
fn vec_contains_char(v: &Vec<char>, c: char) -> (r: bool)
    ensures
        r == v@.contains(c),
{
    let mut i: usize = 0;
    while i < v.len()
        invariant
            0 <= i <= v@.len(),
            forall|j: int| 0 <= j < i ==> v@[j] != c,
        decreases v@.len() - i,
    {
        if v[i] == c {
            return true;
        }
        i += 1;
    }
    false
}

} // verus!

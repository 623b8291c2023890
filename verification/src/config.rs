//! The settings of one run: the options that a command line may give, which
//! of them it must give, and what they stand for.

use crate::eval_args::set_data;
use crate::record::Record;
use crate::text::{parse_short, short_number};
use vstd::prelude::*;
use vstd::string::*;

verus! {

/// The options of the command line.
#[derive(Debug, Clone, Copy, PartialEq, Eq, Structural)]
pub enum Param {
    /// The file that holds the records.
    File,
    /// The collection into which they go.
    Name,
    /// The file whose first line is the template, or `header` where the
    /// first line of the records' file is.
    Template,
    /// The host of the store.
    Address,
    /// Its port.
    Port,
    /// Its database.
    Dbname,
    /// The field that names a record.
    Identifier,
    /// Asks for the options to be printed as they were understood.
    Verbose,
    /// Asks for the list of options.
    Help,
}

impl Param {
    /// The name of the option.
    pub open spec fn text(self) -> Seq<char> {
        match self {
            Param::File => "file"@,
            Param::Name => "name"@,
            Param::Template => "template"@,
            Param::Address => "address"@,
            Param::Port => "port"@,
            Param::Dbname => "dbname"@,
            Param::Identifier => "identifier"@,
            Param::Verbose => "verbose"@,
            Param::Help => "help"@,
        }
    }

    /// The name of the option.
    pub fn name(self) -> (name: &'static str)
        ensures
            name@ == self.text(),
    {
        match self {
            Param::File => "file",
            Param::Name => "name",
            Param::Template => "template",
            Param::Address => "address",
            Param::Port => "port",
            Param::Dbname => "dbname",
            Param::Identifier => "identifier",
            Param::Verbose => "verbose",
            Param::Help => "help",
        }
    }
}

/// The names of all options, in the order in which they are listed.
pub fn options() -> (names: Vec<String>)
    ensures
        names.deep_view() == seq![
            Param::File.text(),
            Param::Name.text(),
            Param::Template.text(),
            Param::Address.text(),
            Param::Port.text(),
            Param::Dbname.text(),
            Param::Identifier.text(),
            Param::Verbose.text(),
            Param::Help.text(),
        ],
{
    let mut names: Vec<String> = Vec::new();
    names.push(String::from_str(Param::File.name()));
    names.push(String::from_str(Param::Name.name()));
    names.push(String::from_str(Param::Template.name()));
    names.push(String::from_str(Param::Address.name()));
    names.push(String::from_str(Param::Port.name()));
    names.push(String::from_str(Param::Dbname.name()));
    names.push(String::from_str(Param::Identifier.name()));
    names.push(String::from_str(Param::Verbose.name()));
    names.push(String::from_str(Param::Help.name()));
    names
}

/// Everything that a run needs to know.
#[derive(Debug, PartialEq, Eq)]
pub struct Config {
    /// The file that holds the records.
    pub file: String,
    /// The file whose first line is the template.
    pub template: String,
    /// The first line of the records' file is the template, and no record.
    pub header: bool,
    /// The collection into which the records go.
    pub name: String,
    /// The host of the store.
    pub address: String,
    /// Its port, if one was given.
    pub port: Option<u16>,
    /// Its database, if one was given.
    pub dbname: Option<String>,
    /// The field that names a record.
    pub identifier: String,
}

/// What a `Config` holds.
pub struct ConfigView {
    pub file: Seq<char>,
    pub template: Seq<char>,
    pub header: bool,
    pub name: Seq<char>,
    pub address: Seq<char>,
    pub port: Option<u16>,
    pub dbname: Option<Seq<char>>,
    pub identifier: Seq<char>,
}

impl View for Config {
    type V = ConfigView;

    open spec fn view(&self) -> ConfigView {
        ConfigView {
            file: self.file@,
            template: self.template@,
            header: self.header,
            name: self.name@,
            address: self.address@,
            port: self.port,
            dbname: match self.dbname {
                Some(d) => Some(d@),
                None => None,
            },
            identifier: self.identifier@,
        }
    }
}

/// Why the options do not make a configuration.
#[derive(Debug, Clone, Copy, PartialEq, Eq, Structural)]
pub enum ConfigError {
    /// An option that must be given was not.
    Missing(Param),
    /// What was given as the port is no 16-bit number.
    InvalidPort,
}

/// The configuration that the given options make.
///
/// The records' file, the template, the collection, the host and the
/// identifier field must be given; the first of them that is not, in this
/// order, is the error. Port and database may be left out; a port that is
/// given must be a number. Where the template is the word `header` the
/// records' file is its own template, and its first line no record.
pub open spec fn configured(params: Map<Seq<char>, Seq<char>>) -> Result<ConfigView, ConfigError> {
    if !params.contains_key(Param::File.text()) {
        Err(ConfigError::Missing(Param::File))
    } else if !params.contains_key(Param::Template.text()) {
        Err(ConfigError::Missing(Param::Template))
    } else if !params.contains_key(Param::Name.text()) {
        Err(ConfigError::Missing(Param::Name))
    } else if !params.contains_key(Param::Address.text()) {
        Err(ConfigError::Missing(Param::Address))
    } else if params.contains_key(Param::Port.text()) && short_number(
        params[Param::Port.text()],
    ) is None {
        Err(ConfigError::InvalidPort)
    } else if !params.contains_key(Param::Identifier.text()) {
        Err(ConfigError::Missing(Param::Identifier))
    } else {
        let header = params[Param::Template.text()] == "header"@;
        Ok(
            ConfigView {
                file: params[Param::File.text()],
                template: if header {
                    params[Param::File.text()]
                } else {
                    params[Param::Template.text()]
                },
                header,
                name: params[Param::Name.text()],
                address: params[Param::Address.text()],
                port: if params.contains_key(Param::Port.text()) {
                    short_number(params[Param::Port.text()])
                } else {
                    None
                },
                dbname: if params.contains_key(Param::Dbname.text()) {
                    Some(params[Param::Dbname.text()])
                } else {
                    None
                },
                identifier: params[Param::Identifier.text()],
            },
        )
    }
}

/// The value given for an option, if it was given.
fn given(params: &Record, param: Param) -> (value: Option<String>)
    ensures
        match value {
            Some(v) => params@.contains_key(param.text()) && v@ == params@[param.text()],
            None => !params@.contains_key(param.text()),
        },
{
    set_data(params, &String::from_str(param.name()))
}

/// Makes the configuration of a run out of the options that were given.
pub fn configure(params: &Record) -> (ret: Result<Config, ConfigError>)
    ensures
        match ret {
            Ok(config) => configured(params@) == Ok::<ConfigView, ConfigError>(config@),
            Err(e) => configured(params@) == Err::<ConfigView, ConfigError>(e),
        },
{
    let file = match given(params, Param::File) {
        Some(v) => v,
        None => return Err(ConfigError::Missing(Param::File)),
    };
    let template = match given(params, Param::Template) {
        Some(v) => v,
        None => return Err(ConfigError::Missing(Param::Template)),
    };
    let name = match given(params, Param::Name) {
        Some(v) => v,
        None => return Err(ConfigError::Missing(Param::Name)),
    };
    let address = match given(params, Param::Address) {
        Some(v) => v,
        None => return Err(ConfigError::Missing(Param::Address)),
    };
    let port = match given(params, Param::Port) {
        Some(text) => match parse_short(text.as_str()) {
            Some(p) => Some(p),
            None => return Err(ConfigError::InvalidPort),
        },
        None => None,
    };
    let dbname = given(params, Param::Dbname);
    let identifier = match given(params, Param::Identifier) {
        Some(v) => v,
        None => return Err(ConfigError::Missing(Param::Identifier)),
    };
    let header = template == String::from_str("header");
    let template = if header {
        file.clone()
    } else {
        template
    };
    Ok(Config { file, template, header, name, address, port, dbname, identifier })
}

} // verus!

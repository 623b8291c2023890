use redis_import::config::{configure, options, Config, ConfigError, Param};
use redis_import::eval_args::evaluate;
use redis_import::record::Record;

fn s(text: &str) -> String {
    text.to_string()
}

fn params(fields: &[(&str, &str)]) -> Record {
    let mut record = Record::new();
    for (name, value) in fields {
        record.insert(s(name), s(value));
    }
    record
}

fn full() -> Vec<(&'static str, &'static str)> {
    vec![
        ("file", "data.csv"),
        ("template", "names.csv"),
        ("name", "users"),
        ("address", "127.0.0.1"),
        ("port", "6379"),
        ("dbname", "2"),
        ("identifier", "id"),
    ]
}

fn without(name: &str) -> Record {
    let fields: Vec<_> = full().into_iter().filter(|(n, _)| *n != name).collect();
    params(&fields)
}

#[test]
fn options_are_listed_in_order() {
    assert_eq!(
        options(),
        vec!["file", "name", "template", "address", "port", "dbname", "identifier", "verbose", "help"]
    );
}

#[test]
fn each_option_has_its_name() {
    let all = [
        Param::File,
        Param::Name,
        Param::Template,
        Param::Address,
        Param::Port,
        Param::Dbname,
        Param::Identifier,
        Param::Verbose,
        Param::Help,
    ];
    let names: Vec<String> = all.iter().map(|p| s(p.name())).collect();
    assert_eq!(names, options());
}

#[test]
fn all_options_given() {
    assert_eq!(
        configure(&params(&full())),
        Ok(Config {
            file: s("data.csv"),
            template: s("names.csv"),
            header: false,
            name: s("users"),
            address: s("127.0.0.1"),
            port: Some(6379),
            dbname: Some(s("2")),
            identifier: s("id"),
        })
    );
}

#[test]
fn port_and_database_may_be_left_out() {
    let config = configure(&without("port")).unwrap();
    assert_eq!(config.port, None);
    assert_eq!(config.dbname, Some(s("2")));
    let config = configure(&without("dbname")).unwrap();
    assert_eq!(config.port, Some(6379));
    assert_eq!(config.dbname, None);
}

#[test]
fn header_makes_the_file_its_own_template() {
    let mut given = without("template");
    given.insert(s("template"), s("header"));
    let config = configure(&given).unwrap();
    assert!(config.header);
    assert_eq!(config.template, "data.csv");
    assert_eq!(config.file, "data.csv");
}

#[test]
fn other_templates_are_files() {
    for name in ["Header", "header ", "headers", ""] {
        let mut given = without("template");
        given.insert(s("template"), s(name));
        let config = configure(&given).unwrap();
        assert!(!config.header);
        assert_eq!(config.template, name);
    }
}

#[test]
fn each_needed_option_is_missed() {
    assert_eq!(configure(&without("file")), Err(ConfigError::Missing(Param::File)));
    assert_eq!(configure(&without("template")), Err(ConfigError::Missing(Param::Template)));
    assert_eq!(configure(&without("name")), Err(ConfigError::Missing(Param::Name)));
    assert_eq!(configure(&without("address")), Err(ConfigError::Missing(Param::Address)));
    assert_eq!(configure(&without("identifier")), Err(ConfigError::Missing(Param::Identifier)));
}

#[test]
fn first_missing_option_is_reported() {
    assert_eq!(configure(&Record::new()), Err(ConfigError::Missing(Param::File)));
    assert_eq!(
        configure(&params(&[("file", "f"), ("identifier", "id")])),
        Err(ConfigError::Missing(Param::Template))
    );
    assert_eq!(
        configure(&params(&[("file", "f"), ("template", "t"), ("address", "a")])),
        Err(ConfigError::Missing(Param::Name))
    );
}

#[test]
fn port_must_be_a_number() {
    for port in ["", "http", "65536", "-1", "80 "] {
        let mut given = without("port");
        given.insert(s("port"), s(port));
        assert_eq!(configure(&given), Err(ConfigError::InvalidPort));
    }
}

#[test]
fn bad_port_is_found_before_a_missing_identifier() {
    let given = params(&[("file", "f"), ("template", "t"), ("name", "n"), ("address", "a"), ("port", "x")]);
    assert_eq!(configure(&given), Err(ConfigError::InvalidPort));
    let given = params(&[("file", "f"), ("template", "t"), ("name", "n"), ("port", "x")]);
    assert_eq!(configure(&given), Err(ConfigError::Missing(Param::Address)));
}

#[test]
fn option_given_without_a_value_is_given() {
    let mut given = without("name");
    given.insert(s("name"), s(""));
    assert_eq!(configure(&given).unwrap().name, "");
}

#[test]
fn command_line_to_configuration() {
    let line = "prog -f data.csv --template header -n users -a db.local -p 7000 --identifier id";
    let args: Vec<String> = line.split(' ').map(s).collect();
    let config = configure(&evaluate(args, &options())).unwrap();
    assert_eq!(
        config,
        Config {
            file: s("data.csv"),
            template: s("data.csv"),
            header: true,
            name: s("users"),
            address: s("db.local"),
            port: Some(7000),
            dbname: None,
            identifier: s("id"),
        }
    );
}

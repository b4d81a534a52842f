use db_diff::adapter::{as_select_col, group_dump_configs, parse_col_value, parse_row, plan_table, select_query, split_col_schemata, TableStep};
use db_diff::schema::{ColSchema, TableSchema};
use db_diff::value::ColValue;

fn sut(data_type: &str, col_type: &str, value: &str) -> ColValue {
    parse_col_value(
        &ColSchema { col_name: "col_test".to_string(), data_type: data_type.to_string(), col_type: col_type.to_string() },
        value.to_string(),
    )
}

#[test]
fn parse_i_tinyint() {
    let exp = "42";
    assert_eq!(exp, sut("tinyint", "tinyint", "42").as_display_value());
}

#[test]
fn parse_u_tinyint() {
    let exp = "42";
    assert_eq!(exp, sut("tinyint", "tinyint unsigned", "42").as_display_value());
}

#[test]
fn parse_i_smallint() {
    let exp = "42";
    assert_eq!(exp, sut("smallint", "smallint", "42").as_display_value());
}

#[test]
fn parse_u_smallint() {
    let exp = "42";
    assert_eq!(exp, sut("smallint", "smallint unsigned", "42").as_display_value());
}

#[test]
fn parse_i_mediumint() {
    let exp = "42";
    assert_eq!(exp, sut("mediumint", "mediumint", "42").as_display_value());
}

#[test]
fn parse_u_mediumint() {
    let exp = "42";
    assert_eq!(exp, sut("mediumint", "mediumint unsigned", "42").as_display_value());
}

#[test]
fn parse_i_int() {
    let exp = "42";
    assert_eq!(exp, sut("int", "int", "42").as_display_value());
}

#[test]
fn parse_u_int() {
    let exp = "42";
    assert_eq!(exp, sut("int", "int unsigned", "42").as_display_value());
}

#[test]
fn parse_i_bigint() {
    let exp = "42";
    assert_eq!(exp, sut("bigint", "bigint", "42").as_display_value());
}

#[test]
fn parse_u_bigint() {
    let exp = "42";
    assert_eq!(exp, sut("bigint", "bigint unsigned", "42").as_display_value());
}

#[test]
fn parse_decimal() {
    let exp = "42.0";
    assert_eq!(exp, sut("decimal", "decimal(5,2)", "42.0").as_display_value());
}

#[test]
fn parse_float() {
    let exp = "42.0";
    assert_eq!(exp, sut("float", "float(5,2)", "42.0").as_display_value());
}

#[test]
fn parse_double() {
    let exp = "42.0";
    assert_eq!(exp, sut("double", "double(5,2)", "42.0").as_display_value());
}

#[test]
fn parse_bit() {
    let exp = "bit(111)";
    assert_eq!(exp, sut("bit", "bit(3)", "111").as_display_value());
}

#[test]
fn parse_date() {
    let exp = r#""2020-01-01""#;
    assert_eq!(exp, sut("date", "date", "2020-01-01").as_display_value());
}

#[test]
fn parse_time() {
    let exp = r#""12:34:56""#;
    assert_eq!(exp, sut("time", "time", "12:34:56").as_display_value());
}

#[test]
fn parse_datetime() {
    let exp = r#""2020-01-01 12:34:56""#;
    assert_eq!(exp, sut("datetime", "datetime", "2020-01-01 12:34:56").as_display_value());
}

#[test]
fn parse_timestamp() {
    let exp = r#""2020-01-01 12:34:56""#;
    assert_eq!(exp, sut("timestamp", "timestamp", "2020-01-01 12:34:56").as_display_value());
}

#[test]
fn parse_year() {
    let exp = r#""2020""#;
    assert_eq!(exp, sut("year", "year", "2020").as_display_value());
}

#[test]
fn parse_char() {
    let exp = r#""abc""#;
    assert_eq!(exp, sut("char", "char(3)", "abc").as_display_value());
}

#[test]
fn parse_varchar() {
    let exp = r#""abc""#;
    assert_eq!(exp, sut("varchar", "varchar(3)", "abc").as_display_value());
}

#[test]
fn parse_binary() {
    let exp = "binary";
    assert_eq!(exp, sut("binary", "binary(3)", "abc").as_display_value());
}

#[test]
fn parse_varbinary() {
    let exp = "binary";
    assert_eq!(exp, sut("varbinary", "varbinary(3)", "abc").as_display_value());
}

#[test]
fn parse_tinyblob() {
    let exp = "binary";
    assert_eq!(exp, sut("tinyblob", "tinyblob", "abc").as_display_value());
}

#[test]
fn parse_blob() {
    let exp = "binary";
    assert_eq!(exp, sut("blob", "blob", "abc").as_display_value());
}

#[test]
fn parse_mediumblob() {
    let exp = "binary";
    assert_eq!(exp, sut("mediumblob", "mediumblob", "abc").as_display_value());
}

#[test]
fn parse_longblob() {
    let exp = "binary";
    assert_eq!(exp, sut("longblob", "longblob", "abc").as_display_value());
}

#[test]
fn parse_tinytext() {
    let exp = r#""abc""#;
    assert_eq!(exp, sut("tinytext", "tinytext", "abc").as_display_value());
}

#[test]
fn parse_text() {
    let exp = r#""abc""#;
    assert_eq!(exp, sut("text", "text", "abc").as_display_value());
}

#[test]
fn parse_mediumtext() {
    let exp = r#""abc""#;
    assert_eq!(exp, sut("mediumtext", "mediumtext", "abc").as_display_value());
}

#[test]
fn parse_longtext() {
    let exp = r#""abc""#;
    assert_eq!(exp, sut("longtext", "longtext", "abc").as_display_value());
}

#[test]
fn parse_enum() {
    let exp = r#""abc""#;
    assert_eq!(exp, sut("enum", "enum('abc','def')", "abc").as_display_value());
}

#[test]
fn parse_set() {
    let exp = r#""abc,def""#;
    assert_eq!(exp, sut("set", "set('abc','def')", "abc,def").as_display_value());
}

#[test]
fn parse_json() {
    let exp = r#"{"id": 1, "name": "John"}"#;
    assert_eq!(exp, sut("json", "json", r#"{"id": 1, "name": "John"}"#).as_display_value());
}

fn col(name: &str, data_type: &str) -> ColSchema {
    ColSchema { col_name: name.to_string(), data_type: data_type.to_string(), col_type: data_type.to_string() }
}

#[test]
fn unknown_type_is_a_parse_error() {
    assert_eq!(ColValue::ParseError, sut("geometry", "geometry", "x"));
    assert_eq!("parse error", sut("geometry", "geometry", "x").as_display_value());
}

#[test]
fn select_columns() {
    assert_eq!("bin(`flags`)", as_select_col(&col("flags", "bit")));
    assert_eq!("`name`", as_select_col(&col("name", "varchar")));
}

#[test]
fn select_queries() {
    let schema = TableSchema::new(&"users".to_string(), &[col("id", "int")], &[col("flags", "bit"), col("updated_at", "datetime")]);
    assert_eq!("select `id`,bin(`flags`),`updated_at` from `users`  limit 1000", select_query(&schema, "limited"));
    assert_eq!("select `id`,bin(`flags`),`updated_at` from `users` order by updated_at limit 1000", select_query(&schema, "updated_at"));
}

#[test]
fn rows_are_parsed_by_column_type() {
    let schema = TableSchema::new(&"users".to_string(), &[col("id", "int")], &[col("name", "varchar"), col("note", "text")]);
    let row = parse_row(&schema, &vec![Some("1".to_string()), Some("John".to_string()), None]);
    assert_eq!(vec![ColValue::SimpleNumber("1".to_string())], row.primary_col_values.col_values);
    assert_eq!(vec![ColValue::SimpleString("John".to_string()), ColValue::Null], row.col_values);
}

#[test]
fn schema_names_and_indices() {
    let schema = TableSchema::new(&"t".to_string(), &[col("code1", "int"), col("code2", "int")], &[col("name", "varchar")]);
    assert!(schema.has_any_primary_cols());
    let (primary, others) = schema.get_all_col_names();
    assert_eq!("code1-code2", primary);
    assert_eq!(vec!["name"], others);
    assert_eq!(vec![(0, true), (1, true), (2, false)], schema.get_col_indices());
    let refs: Vec<&str> = schema.get_all_col_refs().iter().map(|c| c.col_name.as_str()).collect();
    assert_eq!(vec!["code1", "code2", "name"], refs);
    assert!(!TableSchema::new(&"t".to_string(), &[], &[col("name", "varchar")]).has_any_primary_cols());
}

#[test]
fn dump_configs_are_grouped_by_table() {
    let rows = vec![
        ("users".to_string(), "id".to_string()),
        ("groups".to_string(), "id".to_string()),
        ("users".to_string(), "updated_at".to_string()),
    ];
    let sut = group_dump_configs(&rows);
    assert_eq!(2, sut.len());
    assert_eq!(("users", "updated_at"), (sut[0].table_name.as_str(), sut[0].value.as_str()));
    assert_eq!(vec!["id", "updated_at"], sut[0].col_names);
    assert_eq!(("groups", "ignore"), (sut[1].table_name.as_str(), sut[1].value.as_str()));
}

#[test]
fn key_columns_are_split_off() {
    let rows = vec![
        ("id".to_string(), "int".to_string(), "int".to_string(), "PRI".to_string()),
        ("name".to_string(), "varchar".to_string(), "varchar(3)".to_string(), "".to_string()),
        ("code".to_string(), "int".to_string(), "int".to_string(), "UNI".to_string()),
    ];
    let (primary, others) = split_col_schemata(&rows);
    assert_eq!(vec!["id"], primary.iter().map(|c| c.col_name.as_str()).collect::<Vec<_>>());
    assert_eq!(vec!["name", "code"], others.iter().map(|c| c.col_name.as_str()).collect::<Vec<_>>());
    assert_eq!("varchar(3)", others[0].col_type);
}

#[test]
fn table_steps() {
    assert_eq!(TableStep::Ignore, plan_table("ignore", true));
    assert_eq!(TableStep::Capture, plan_table("limited", true));
    assert_eq!(TableStep::Skip, plan_table("updated_at", false));
}

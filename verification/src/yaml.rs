//! Parsing YAML text into JSON-shaped values.

use vstd::prelude::*;

use crate::error::{DriverError, LaxError, LaxErrorView};

verus! {

/// The message `serde_yaml_ng` gives for YAML text it cannot read as a JSON
/// value, or `None` when it reads it; a function of the text alone.
pub uninterp spec fn yaml_error_of(content: Seq<char>) -> Option<Seq<char>>;

/// The JSON value `serde_yaml_ng` reads from YAML text that parses; a
/// function of the text alone.
pub uninterp spec fn yaml_value_of(content: Seq<char>) -> serde_json::Value;

/// Wraps `serde_yaml_ng::from_str::<serde_json::Value>`: the value the YAML
/// text holds, or the parser's message.
#[verifier::external_body]
fn yaml_to_json(content: &str) -> (parsed: Result<serde_json::Value, String>)
    ensures
        match yaml_error_of(content@) {
            None => parsed matches Ok(value) && value == yaml_value_of(content@),
            Some(message) => parsed matches Err(error) && error@ == message,
        },
{
    serde_yaml_ng::from_str::<serde_json::Value>(content).map_err(|error| error.to_string())
}

/// Parses YAML text into JSON-shaped values.
#[derive(Debug)]
pub struct YamlDriver;

/// The first content of a list (in list order) that does not parse, by index.
pub open spec fn first_yaml_error(contents: Seq<(String, String)>) -> Option<int> {
    crate::seqs::first_match(contents, yaml_fails())
}

/// Each named YAML text read as its name and the JSON value it holds.
pub open spec fn yaml_documents(contents: Seq<(String, String)>) -> Seq<(Seq<char>, serde_json::Value)> {
    contents.map_values(|entry: (String, String)| (entry.0@, yaml_value_of(entry.1@)))
}

/// "The content does not parse."
pub open spec fn yaml_fails() -> spec_fn((String, String)) -> bool {
    |entry: (String, String)| yaml_error_of(entry.1@) is Some
}

impl YamlDriver {
    pub fn new() -> (driver: YamlDriver) {
        YamlDriver
    }

    /// Parses one YAML text.
    pub fn parse(&self, content: &str) -> (parsed: Result<serde_json::Value, LaxError>)
        ensures
            match yaml_error_of(content@) {
                None => parsed matches Ok(value) && value == yaml_value_of(content@),
                Some(message) => parsed matches Err(error) && error@ == LaxErrorView::Yaml(message),
            },
    {
        match yaml_to_json(content) {
            Ok(value) => Ok(value),
            Err(message) => Err(LaxError::Driver(DriverError::Yaml(message))),
        }
    }

    /// Parses each named YAML text, keeping its name; the first text that
    /// does not parse gives the error.
    pub fn parse_many(&self, contents: &Vec<(String, String)>) -> (parsed: Result<
        Vec<(String, serde_json::Value)>,
        LaxError,
    >)
        ensures
            match first_yaml_error(contents@) {
                Some(index) => parsed matches Err(error) && error@ == LaxErrorView::Yaml(
                    yaml_error_of(contents@[index].1@)->0,
                ),
                None => parsed matches Ok(values) && crate::compile::documents_view(values@) == yaml_documents(
                    contents@,
                ),
            },
    {
        let ghost fails = yaml_fails();
        let mut values: Vec<(String, serde_json::Value)> = Vec::new();
        let mut index: usize = 0;
        while index < contents.len()
            invariant
                0 <= index <= contents.len(),
                fails == yaml_fails(),
                values@.len() == index,
                crate::compile::documents_view(values@) == yaml_documents(contents@.take(index as int)),
                forall|i: int| 0 <= i < index ==> !fails(#[trigger] contents@[i]),
            decreases contents.len() - index,
        {
            match self.parse(contents[index].1.as_str()) {
                Ok(value) => {
                    let ghost before = values@;
                    values.push((contents[index].0.clone(), value));
                    proof {
                        assert(crate::compile::documents_view(values@) =~= crate::compile::documents_view(
                            before,
                        ).push((contents@[index as int].0@, value)));
                        assert(yaml_documents(contents@.take(index as int + 1)) =~= yaml_documents(
                            contents@.take(index as int),
                        ).push((contents@[index as int].0@, yaml_value_of(contents@[index as int].1@))));
                    }
                },
                Err(error) => {
                    proof {
                        crate::seqs::lemma_first_match_is(contents@, fails, index as int);
                    }
                    return Err(error);
                },
            }
            index = index + 1;
        }
        proof {
            crate::seqs::lemma_first_match_none(contents@, fails);
            assert(contents@.take(contents.len() as int) =~= contents@);
        }
        Ok(values)
    }
}

} // verus!

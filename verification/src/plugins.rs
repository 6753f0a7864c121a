//! A sample plugin: the command handler the plugin host dispatches to.
//! Registration and dynamic dispatch live with the host application; the
//! handler itself is plain logic over values.

use vstd::prelude::*;

use crate::types::{str_eq, DbError, Value, ValueView};

verus! {

/// A minimal plugin: it answers the `echo` command with its first
/// argument.
#[derive(Debug)]
pub struct ExamplePlugin {
    pub name: String,
    pub version: String,
}

impl ExamplePlugin {
    /// The sample plugin, named `example`, version `1.0.0`.
    pub fn new() -> (r: ExamplePlugin)
        ensures
            r.name@ == "example"@,
            r.version@ == "1.0.0"@,
    {
        ExamplePlugin { name: String::from_str("example"), version: String::from_str("1.0.0") }
    }

    /// The plugin's registered name.
    pub fn name(&self) -> (r: &str)
        ensures
            r@ == self.name@,
    {
        self.name.as_str()
    }

    /// The plugin's version string.
    pub fn version(&self) -> (r: &str)
        ensures
            r@ == self.version@,
    {
        self.version.as_str()
    }

    /// Start-up hook; this plugin needs none.
    pub fn initialize(&mut self) -> (r: Result<(), DbError>)
        ensures
            r is Ok,
            *final(self) == *old(self),
    {
        Ok(())
    }

    /// Shutdown hook; this plugin needs none.
    pub fn shutdown(&mut self) -> (r: Result<(), DbError>)
        ensures
            r is Ok,
            *final(self) == *old(self),
    {
        Ok(())
    }

    /// Runs one command: `echo` returns the first argument (an empty
    /// text when there is none); any other command is a query error.
    pub fn execute(&self, command: &str, args: &[Value]) -> (r: Result<Value, DbError>)
        ensures
            command@ == "echo"@ && args@.len() > 0 ==> (r matches Ok(v) && v@ == args@[0]@),
            command@ == "echo"@ && args@.len() == 0 ==> (r matches Ok(v) && v@ == ValueView::Text(
                Seq::empty(),
            )),
            command@ != "echo"@ ==> (r matches Err(e) && (e matches DbError::QueryError(_))),
    {
        if str_eq(command, "echo") {
            if args.len() > 0 {
                Ok(args[0].clone())
            } else {
                let empty = String::new();
                Ok(Value::String(empty))
            }
        } else {
            Err(DbError::QueryError(String::from_str("Unknown command")))
        }
    }
}

} // verus!

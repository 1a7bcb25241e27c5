//! The contexts that `kubectl config get-contexts` lists.

use crate::arg_parser::text_values;
use crate::string_utils::{lines_check_string_exists, some_line_reads};
use crate::table::{rows_view, table_of, table_to_hashmap};
use crate::text::{text_eq, trim, trimmed_string};
use vstd::prelude::*;
use vstd::string::StringExecFns;

verus! {

/// One context of the Kubernetes configuration.
#[derive(Debug, Clone, PartialEq, Eq)]
pub struct Context {
    pub current: bool,
    pub name: String,
    pub cluster: String,
    pub auth_info: String,
    pub namespace: String,
}

/// A `Context` with its texts as character sequences.
pub struct ContextView {
    pub current: bool,
    pub name: Seq<char>,
    pub cluster: Seq<char>,
    pub auth_info: Seq<char>,
    pub namespace: Seq<char>,
}

impl View for Context {
    type V = ContextView;

    open spec fn view(&self) -> ContextView {
        ContextView {
            current: self.current,
            name: self.name@,
            cluster: self.cluster@,
            auth_info: self.auth_info@,
            namespace: self.namespace@,
        }
    }
}

/// Why the contexts could not be read.
#[derive(Debug, Clone, PartialEq, Eq)]
pub enum KubectlError {
    /// No line holds the labels of the table of contexts.
    NoHeader,
    /// The lines do not make up a table.
    NoTable,
}

impl KubectlError {
    /// The text that describes the error.
    pub fn message(&self) -> (text: String)
        ensures
            text@ == match self {
                KubectlError::NoHeader => "\"kubectl config get-contexts\" returns no header, cannot get Kubernetes contexts"@,
                KubectlError::NoTable => "\"kubectl config get-contexts\" returns no table, cannot get Kubernetes contexts"@,
            },
    {
        match self {
            KubectlError::NoHeader => "\"kubectl config get-contexts\" returns no header, cannot get Kubernetes contexts".to_owned(),
            KubectlError::NoTable => "\"kubectl config get-contexts\" returns no table, cannot get Kubernetes contexts".to_owned(),
        }
    }
}

/// The labels of the table of contexts, as `kubectl` prints them.
pub open spec fn header_line() -> Seq<char> {
    "CURRENT   NAME      CLUSTER   AUTHINFO   NAMESPACE"@
}

/// What stands in the table for a value that is missing.
pub open spec fn missing() -> Seq<char> {
    "N/A"@
}

/// A value of the table, trimmed; the empty text for a missing one.
pub open spec fn value_of(text: Seq<char>) -> Seq<char> {
    if trim(text) == missing() {
        Seq::empty()
    } else {
        trim(text)
    }
}

/// The row has a value under each of the five labels.
pub open spec fn is_context_row(row: Map<Seq<char>, Seq<char>>) -> bool {
    row.dom().contains("CURRENT"@) && row.dom().contains("NAME"@) && row.dom().contains(
        "CLUSTER"@,
    ) && row.dom().contains("AUTHINFO"@) && row.dom().contains("NAMESPACE"@)
}

/// The context that a row describes. It is the current one if `*` stands
/// under `CURRENT`.
pub open spec fn context_of(row: Map<Seq<char>, Seq<char>>) -> ContextView {
    ContextView {
        current: row["CURRENT"@] == "*"@,
        name: value_of(row["NAME"@]),
        cluster: value_of(row["CLUSTER"@]),
        auth_info: value_of(row["AUTHINFO"@]),
        namespace: value_of(row["NAMESPACE"@]),
    }
}

/// The contexts of the rows that have all five values, in order.
pub open spec fn contexts_of(rows: Seq<Map<Seq<char>, Seq<char>>>) -> Seq<ContextView>
    decreases rows.len(),
{
    if rows.len() == 0 {
        Seq::empty()
    } else if is_context_row(rows.last()) {
        contexts_of(rows.drop_last()).push(context_of(rows.last()))
    } else {
        contexts_of(rows.drop_last())
    }
}

/// The views of a list of contexts.
pub open spec fn context_views(list: Seq<Context>) -> Seq<ContextView> {
    Seq::new(list.len(), |i: int| list[i]@)
}

/// A value of the table, trimmed; the empty text for a missing one.
fn table_value(text: &String) -> (value: String)
    ensures
        value@ == value_of(text@),
{
    let value = trimmed_string(text.as_str());
    if text_eq(value.as_str(), "N/A") {
        String::new()
    } else {
        value
    }
}

/// Reading the output of `kubectl`.
pub struct Kubectl {}

impl Kubectl {
    /// The contexts that the output of `kubectl config get-contexts` lists.
    /// Some line of `lines` must read as the header does; the lines are
    /// then read as a table in which `N/A` stands for a missing value, and
    /// every row with all five values gives a context.
    pub fn get_contexts(lines: &str) -> (res: Result<Vec<Context>, KubectlError>)
        ensures
            match res {
                Ok(contexts) => {
                    &&& some_line_reads(lines@, header_line())
                    &&& table_of(lines@, missing()) matches Some(rows)
                    &&& context_views(contexts@) == contexts_of(rows)
                },
                Err(KubectlError::NoHeader) => !some_line_reads(lines@, header_line()),
                Err(KubectlError::NoTable) => some_line_reads(lines@, header_line()) && table_of(
                    lines@,
                    missing(),
                ) is None,
            },
    {
        if !lines_check_string_exists(lines, "CURRENT   NAME      CLUSTER   AUTHINFO   NAMESPACE") {
            return Err(KubectlError::NoHeader);
        }
        let lines_table = match table_to_hashmap(lines, "N/A") {
            Some(table) => table,
            None => {
                return Err(KubectlError::NoTable);
            },
        };
        let ghost rows = rows_view(lines_table@);
        let mut contexts: Vec<Context> = Vec::new();
        let mut i: usize = 0;
        assert(rows.take(0) =~= Seq::<Map<Seq<char>, Seq<char>>>::empty());
        assert(context_views(contexts@) =~= Seq::<ContextView>::empty());
        while i < lines_table.len()
            invariant
                i <= lines_table.len(),
                rows == rows_view(lines_table@),
                context_views(contexts@) == contexts_of(rows.take(i as int)),
            decreases lines_table.len() - i,
        {
            let irow = &lines_table[i];
            proof {
                assert(rows.take(i + 1).drop_last() =~= rows.take(i as int));
                assert(rows.take(i + 1).last() == text_values(irow@));
            }
            i += 1;
            let current = match irow.get("CURRENT") {
                Some(value) => text_eq(value.as_str(), "*"),
                None => {
                    continue ;
                },
            };
            let name = match irow.get("NAME") {
                Some(value) => table_value(value),
                None => {
                    continue ;
                },
            };
            let cluster = match irow.get("CLUSTER") {
                Some(value) => table_value(value),
                None => {
                    continue ;
                },
            };
            let auth_info = match irow.get("AUTHINFO") {
                Some(value) => table_value(value),
                None => {
                    continue ;
                },
            };
            let namespace = match irow.get("NAMESPACE") {
                Some(value) => table_value(value),
                None => {
                    continue ;
                },
            };
            let context = Context { current, name, cluster, auth_info, namespace };
            let ghost before = context_views(contexts@);
            contexts.push(context);
            assert(context_views(contexts@) =~= before.push(context@));
        }
        assert(rows.take(lines_table.len() as int) =~= rows);
        Ok(contexts)
    }
}

impl Context {
    /// A context of which only the name is known.
    pub fn named(name: String) -> (context: Context)
        ensures
            context@ == (ContextView {
                current: false,
                name: name@,
                cluster: Seq::empty(),
                auth_info: Seq::empty(),
                namespace: Seq::empty(),
            }),
    {
        Context {
            current: false,
            name,
            cluster: String::new(),
            auth_info: String::new(),
            namespace: String::new(),
        }
    }

    /// The context in one line, for the list of contexts that were found.
    pub fn describe(&self) -> (line: String)
        ensures
            line@ == "\tname: "@ + self.name@ + ", cluster: "@ + self.cluster@ + ", auth_info: "@
                + self.auth_info@ + ", namespace: "@ + self.namespace@ + ", current: "@ + (
            if self.current {
                "true"@
            } else {
                "false"@
            }),
    {
        let mut line = "\tname: ".to_owned();
        line.append(self.name.as_str());
        line.append(", cluster: ");
        line.append(self.cluster.as_str());
        line.append(", auth_info: ");
        line.append(self.auth_info.as_str());
        line.append(", namespace: ");
        line.append(self.namespace.as_str());
        line.append(", current: ");
        if self.current {
            line.append("true");
        } else {
            line.append("false");
        }
        line
    }
}

} // verus!

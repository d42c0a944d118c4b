//! Which FlightSQL commands each Flight method serves.

use vstd::prelude::*;

verus! {

/// The FlightSQL messages that a client can send.
#[derive(Clone, Copy, Debug, PartialEq, Eq, Structural, Hash)]
pub enum FlightSQLCommandKind {
    CommandStatementQuery,
    CommandPreparedStatementQuery,
    CommandGetSqlInfo,
    CommandGetCatalogs,
    CommandGetCrossReference,
    CommandGetDbSchemas,
    CommandGetExportedKeys,
    CommandGetImportedKeys,
    CommandGetPrimaryKeys,
    CommandGetTables,
    CommandGetTableTypes,
    CommandGetXdbcTypeInfo,
    ActionCreatePreparedStatementRequest,
    ActionClosePreparedStatementRequest,
}

/// The Flight methods through which a command can arrive.
#[derive(Clone, Copy, Debug, PartialEq, Eq, Structural, Hash)]
pub enum FlightMethod {
    GetFlightInfo,
    DoGet,
    DoAction,
}

/// A command arrived through a method that does not serve it.
#[derive(Clone, Copy, Debug, PartialEq, Eq, Structural, Hash)]
pub struct ProtocolError {
    pub cmd: FlightSQLCommandKind,
    pub method: FlightMethod,
}

/// The two commands that manage prepared statements.
pub open spec fn is_action(cmd: FlightSQLCommandKind) -> bool {
    cmd == FlightSQLCommandKind::ActionCreatePreparedStatementRequest
        || cmd == FlightSQLCommandKind::ActionClosePreparedStatementRequest
}

/// `DoAction` serves the prepared-statement actions and nothing else;
/// `GetFlightInfo` and `DoGet` serve everything else.
pub open spec fn serves(method: FlightMethod, cmd: FlightSQLCommandKind) -> bool {
    match method {
        FlightMethod::DoAction => is_action(cmd),
        _ => !is_action(cmd),
    }
}

/// Logic for creating plans for various Flight messages against a query database
#[derive(Debug, PartialEq, Eq)]
pub struct FlightSQLPlanner {}

impl FlightSQLPlanner {
    pub fn new() -> (planner: Self)
        ensures
            planner == (FlightSQLPlanner {  }),
    {
        FlightSQLPlanner {  }
    }

    /// Accepts `cmd` for `method`, or says which protocol rule it breaks.
    pub fn check_command(method: FlightMethod, cmd: FlightSQLCommandKind) -> (res: Result<
        (),
        ProtocolError,
    >)
        ensures
            res is Ok <==> serves(method, cmd),
            res is Err ==> res->Err_0 == (ProtocolError { cmd, method }),
    {
        let action = match cmd {
            FlightSQLCommandKind::ActionCreatePreparedStatementRequest => true,
            FlightSQLCommandKind::ActionClosePreparedStatementRequest => true,
            _ => false,
        };
        let wants_action = match method {
            FlightMethod::DoAction => true,
            _ => false,
        };
        if action == wants_action {
            Ok(())
        } else {
            Err(ProtocolError { cmd, method })
        }
    }
}

impl Default for FlightSQLPlanner {
    fn default() -> (planner: Self)
        ensures
            planner == (FlightSQLPlanner {  }),
    {
        FlightSQLPlanner {  }
    }
}

} // verus!

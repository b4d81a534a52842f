use vstd::prelude::*;

verus! {

pub type ProjectId = String;

/// The kinds of database a project can capture.
#[derive(Debug, PartialEq, Eq, Structural)]
pub enum Rdbms {
    Mysql,
}

/// A database to capture, with its connection settings.
#[derive(Debug, PartialEq, Eq)]
pub struct Project {
    pub project_id: ProjectId,
    pub name: String,
    pub color: String,
    pub rdbms: Rdbms,
    pub user: String,
    pub password: String,
    pub host: String,
    pub port: String,
    pub schema: String,
}

/// The connection URL of a MySQL database.
pub open spec fn mysql_url(user: Seq<char>, password: Seq<char>, host: Seq<char>, port: Seq<char>, schema: Seq<char>) -> Seq<char> {
    "mysql://"@ + user + ":"@ + password + "@"@ + host + ":"@ + port + "/"@ + schema
}

impl Project {
    pub fn new(
        project_id: &ProjectId,
        name: &str,
        color: &str,
        rdbms: Rdbms,
        user: &str,
        password: &str,
        host: &str,
        port: &str,
        schema: &str,
    ) -> (r: Self)
        ensures
            r.project_id@ == project_id@,
            r.name@ == name@,
            r.color@ == color@,
            r.rdbms == rdbms,
            r.user@ == user@,
            r.password@ == password@,
            r.host@ == host@,
            r.port@ == port@,
            r.schema@ == schema@,
    {
        Self {
            project_id: project_id.clone(),
            name: String::from_str(name),
            color: String::from_str(color),
            rdbms,
            user: String::from_str(user),
            password: String::from_str(password),
            host: String::from_str(host),
            port: String::from_str(port),
            schema: String::from_str(schema),
        }
    }

    /// The URL to connect to the project's database.
    pub fn create_url(&self) -> (r: String)
        ensures
            r@ == mysql_url(self.user@, self.password@, self.host@, self.port@, self.schema@),
    {
        let mut r = String::from_str("mysql://");
        r.append(self.user.as_str());
        r.append(":");
        r.append(self.password.as_str());
        r.append("@");
        r.append(self.host.as_str());
        r.append(":");
        r.append(self.port.as_str());
        r.append("/");
        r.append(self.schema.as_str());
        r
    }
}

} // verus!

use vstd::prelude::*;
use crate::error::AppError;
use crate::names::names;
use crate::value::{decimal_text, reads_back, text_is_unreadable, text_reads_otherwise, ScoreValue};
use chrono::NaiveDateTime;

verus! {

/// Stores a score that the database stamps with the current time.
pub const INSERT_SCORE_SQL: &'static str = "INSERT INTO score(score) VALUES(?)";

/// Stores a score with a given time.
pub const INSERT_SCORE_AT_SQL: &'static str = "INSERT INTO score(score, created_at) VALUES(?,?)";

/// Stores one tag of a score.
pub const INSERT_TAG_SQL: &'static str = "INSERT INTO tag (name, score_id) VALUES (?,?)";

/// One value bound to a placeholder of a statement.
#[derive(Debug)]
pub enum Param {
    Text(String),
    Integer(i64),
    Moment(NaiveDateTime),
}

/// A bound value as a mathematical value.
pub enum ParamView {
    Text(Seq<char>),
    Integer(int),
    Moment(NaiveDateTime),
}

impl View for Param {
    type V = ParamView;

    open spec fn view(&self) -> ParamView {
        match *self {
            Param::Text(text) => ParamView::Text(text@),
            Param::Integer(number) => ParamView::Integer(number as int),
            Param::Moment(moment) => ParamView::Moment(moment),
        }
    }
}

/// A statement with the values for its placeholders, ready to be run.
#[derive(Debug)]
pub struct Command {
    pub sql: String,
    pub params: Vec<Param>,
}

/// A command as a mathematical value.
pub struct CommandView {
    pub sql: Seq<char>,
    pub params: Seq<ParamView>,
}

impl View for Command {
    type V = CommandView;

    open spec fn view(&self) -> CommandView {
        CommandView { sql: self.sql@, params: Seq::new(self.params.len() as nat, |i: int| self.params[i]@) }
    }
}

/// The command that stores `value` as its canonical text, stamped with
/// `moment` or, without one, by the database.
pub open spec fn score_insertion(value: (int, nat), moment: Option<NaiveDateTime>) -> CommandView {
    match moment {
        Some(moment) => CommandView {
            sql: INSERT_SCORE_AT_SQL@,
            params: seq![ParamView::Text(decimal_text(value.0, value.1)), ParamView::Moment(moment)],
        },
        None => CommandView {
            sql: INSERT_SCORE_SQL@,
            params: seq![ParamView::Text(decimal_text(value.0, value.1))],
        },
    }
}

/// The command that stores the tag `name` for the score `score_id`.
pub open spec fn tag_insertion(name: Seq<char>, score_id: int) -> CommandView {
    CommandView {
        sql: INSERT_TAG_SQL@,
        params: seq![ParamView::Text(name), ParamView::Integer(score_id)],
    }
}

/// The commands that store `tags` for the score `score_id`: one for each
/// tag, in the order given, repeats included.
pub open spec fn tag_insertions(tags: Seq<Seq<char>>, score_id: int) -> Seq<CommandView> {
    Seq::new(tags.len(), |i: int| tag_insertion(tags[i], score_id))
}

/// The commands of a list, each as its mathematical value.
pub open spec fn command_views(list: Seq<Command>) -> Seq<CommandView> {
    Seq::new(list.len(), |i: int| list[i]@)
}

impl Command {
    /// A statement without placeholders.
    pub fn plain(sql: &str) -> (command: Command)
        ensures
            command@ == (CommandView { sql: sql@, params: seq![] }),
    {
        let command = Command { sql: sql.to_owned(), params: Vec::new() };
        assert(command@.params =~= seq![]);
        command
    }

    /// The command that stores a score. The text that it binds is one that
    /// reads back as the score; for a score that has no such text there is
    /// no command, and the error says why.
    pub fn insert_score(score: &ScoreValue, moment: Option<NaiveDateTime>) -> (r: Result<
        Command,
        AppError,
    >)
        ensures
            r is Ok <==> reads_back(score@),
            r matches Ok(command) ==> command@ == score_insertion(score@, moment),
            r matches Err(AppError::Decoding(_)) <==> text_is_unreadable(score@),
            r matches Err(AppError::Configuration(_)) <==> text_reads_otherwise(score@),
    {
        let text = match score.to_stored_text() {
            Ok(text) => text,
            Err(e) => {
                return Err(e);
            },
        };
        let mut params: Vec<Param> = Vec::new();
        params.push(Param::Text(text));
        let command = match moment {
            Some(moment) => {
                params.push(Param::Moment(moment));
                Command { sql: INSERT_SCORE_AT_SQL.to_owned(), params }
            },
            None => Command { sql: INSERT_SCORE_SQL.to_owned(), params },
        };
        assert(command@.params =~= score_insertion(score@, moment).params);
        Ok(command)
    }

    /// The command that stores one tag of a score.
    pub fn insert_tag(name: &String, score_id: i64) -> (command: Command)
        ensures
            command@ == tag_insertion(name@, score_id as int),
    {
        let mut params: Vec<Param> = Vec::new();
        params.push(Param::Text(name.clone()));
        params.push(Param::Integer(score_id));
        let command = Command { sql: INSERT_TAG_SQL.to_owned(), params };
        assert(command@.params =~= tag_insertion(name@, score_id as int).params);
        command
    }

    /// The commands that store the tags of a score. Nothing is trimmed and
    /// nothing is left out: a tag given twice is stored twice.
    pub fn insert_tags(tags: &Vec<String>, score_id: i64) -> (commands: Vec<Command>)
        ensures
            command_views(commands@) == tag_insertions(names(tags@), score_id as int),
    {
        let mut commands: Vec<Command> = Vec::new();
        let mut i: usize = 0;
        while i < tags.len()
            invariant
                i <= tags.len(),
                commands.len() == i,
                forall|k: int|
                    0 <= k < i ==> (#[trigger] commands@[k])@ == tag_insertion(
                        tags@[k]@,
                        score_id as int,
                    ),
            decreases tags.len() - i,
        {
            commands.push(Command::insert_tag(&tags[i], score_id));
            i += 1;
        }
        assert(command_views(commands@) =~= tag_insertions(names(tags@), score_id as int));
        commands
    }
}

} // verus!

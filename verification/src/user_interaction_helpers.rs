use vstd::prelude::*;
use vstd::string::*;

verus! {

/// How serious an alert is.
#[derive(Clone, Copy, Debug, PartialEq, Eq, Structural)]
pub enum AlertKind {
    Error,
    Warning,
    Information,
}

/// Whether alerts about problems with command-line arguments are shown on
/// the window, rather than ending the program after they are reported on
/// standard error. The program is built with this off.
pub const INTERACTIVE_ALERTS_ABOUT_ARGS: bool = false;

/// The upper-case name of an alert kind.
pub open spec fn kind_name(kind: AlertKind) -> Seq<char> {
    match kind {
        AlertKind::Error => "ERROR"@,
        AlertKind::Warning => "WARNING"@,
        AlertKind::Information => "INFORMATION"@,
    }
}

/// Whether an alert goes to the window (otherwise the program ends after
/// reporting it on standard error).
pub open spec fn alerts_through_gui(from_arg: bool) -> bool {
    !from_arg || INTERACTIVE_ALERTS_ABOUT_ARGS
}

/// The text added after the error of a world file: a promise of a new
/// prompt, when the alert goes to the window.
pub open spec fn world_file_after_error(specified_as_arg: bool) -> Seq<char> {
    if alerts_through_gui(specified_as_arg) {
        "\nYou will be prompted for a new world file once you dismiss this message."@
    } else {
        ""@
    }
}

/// An alert about a world file promises a new prompt exactly when it is
/// shown on the window, where it can be dismissed; an alert that ends the
/// program promises nothing.
pub proof fn lemma_prompt_promised_only_on_window(specified_as_arg: bool)
    ensures
        world_file_after_error(specified_as_arg).len() > 0 <==> alerts_through_gui(specified_as_arg),
{
    reveal_strlit("\nYou will be prompted for a new world file once you dismiss this message.");
    reveal_strlit("");
}

/// The upper-case name of an alert kind, as it appears on standard error.
pub fn message_box_flag_as_str(kind: AlertKind) -> (s: &'static str)
    ensures
        s@ == kind_name(kind),
{
    match kind {
        AlertKind::Error => "ERROR",
        AlertKind::Warning => "WARNING",
        AlertKind::Information => "INFORMATION",
    }
}

/// Whether an alert is shown on the window: always for alerts that do not
/// come from a command-line argument, and for those that do only when
/// `INTERACTIVE_ALERTS_ABOUT_ARGS` is set.
pub fn we_are_alerting_through_the_gui(from_arg: bool) -> (b: bool)
    ensures
        b == alerts_through_gui(from_arg),
{
    !from_arg || INTERACTIVE_ALERTS_ABOUT_ARGS
}

/// What follows the error in an alert about a world file.
pub fn world_file_message_after_error(specified_as_arg: bool) -> (s: &'static str)
    ensures
        s@ == world_file_after_error(specified_as_arg),
{
    if we_are_alerting_through_the_gui(specified_as_arg) {
        "\nYou will be prompted for a new world file once you dismiss this message."
    } else {
        ""
    }
}

/// A non-fatal error or warning for the user: where it comes from, how
/// serious it is, and what it says.
pub struct Alert {
    pub from_arg: bool,
    pub kind: AlertKind,
    pub title: String,
    pub message: String,
}

impl Alert {
    /// Whether this alert is shown on the window; if not, the program ends
    /// once the alert has been reported on standard error.
    pub fn through_gui(&self) -> (b: bool)
        ensures
            b == alerts_through_gui(self.from_arg),
    {
        we_are_alerting_through_the_gui(self.from_arg)
    }

    /// The line reported on standard error: the kind's name, a colon, a
    /// space, and the message.
    pub fn command_line_report(&self) -> (line: String)
        ensures
            line@ == kind_name(self.kind) + ": "@ + self.message@,
    {
        let mut line = String::from_str(message_box_flag_as_str(self.kind));
        line.append(": ");
        line.append(self.message.as_str());
        line
    }
}

/// An error alert titled "Invalid World File" whose message is the error
/// text between the given texts.
pub fn alert_about_error(
    from_arg: bool,
    error_text: &str,
    message_before_error: &str,
    message_after_error: &str,
) -> (a: Alert)
    ensures
        a.from_arg == from_arg,
        a.kind == AlertKind::Error,
        a.title@ == "Invalid World File"@,
        a.message@ == message_before_error@ + error_text@ + message_after_error@,
{
    let mut message = String::from_str(message_before_error);
    message.append(error_text);
    message.append(message_after_error);
    Alert {
        from_arg,
        kind: AlertKind::Error,
        title: String::from_str("Invalid World File"),
        message,
    }
}

/// The text before the error when a world file fails to parse.
pub open spec fn invalid_world_file_before_error(specified_as_arg: bool) -> Seq<char> {
    if specified_as_arg {
        "The world file specified as an argument failed to parse with this error:\n"@
    } else {
        "The world file failed to parse with this error:\n"@
    }
}

/// The text before the error when a world file cannot be read.
pub open spec fn io_error_before_error(specified_as_arg: bool) -> Seq<char> {
    if specified_as_arg {
        "There was an I/O error in reading the world file specified as an argument. Its description reads:\n"@
    } else {
        "THIS WAS SLIGHTLY UNEXPECTED! :P\nPlease contact the maintainer with this error message.\nThere was an I/O error in reading the world file specified. Its description reads:\n"@
    }
}

/// The alert for a world file that failed to parse with `error_text`.
pub fn alert_about_invalid_world_file(specified_as_arg: bool, error_text: &str) -> (a: Alert)
    ensures
        a.from_arg == specified_as_arg,
        a.kind == AlertKind::Error,
        a.title@ == "Invalid World File"@,
        a.message@ == invalid_world_file_before_error(specified_as_arg) + error_text@
            + world_file_after_error(specified_as_arg),
{
    let message_before_error = if specified_as_arg {
        "The world file specified as an argument failed to parse with this error:\n"
    } else {
        "The world file failed to parse with this error:\n"
    };
    alert_about_error(
        specified_as_arg,
        error_text,
        message_before_error,
        world_file_message_after_error(specified_as_arg),
    )
}

/// The alert for a world file that could not be read, with `error_text`.
pub fn alert_about_io_error_with_world_file(specified_as_arg: bool, error_text: &str) -> (a: Alert)
    ensures
        a.from_arg == specified_as_arg,
        a.kind == AlertKind::Error,
        a.title@ == "Invalid World File"@,
        a.message@ == io_error_before_error(specified_as_arg) + error_text@ + world_file_after_error(
            specified_as_arg,
        ),
{
    let message_before_error = if specified_as_arg {
        "There was an I/O error in reading the world file specified as an argument. Its description reads:\n"
    } else {
        "THIS WAS SLIGHTLY UNEXPECTED! :P\nPlease contact the maintainer with this error message.\nThere was an I/O error in reading the world file specified. Its description reads:\n"
    };
    alert_about_error(
        specified_as_arg,
        error_text,
        message_before_error,
        world_file_message_after_error(specified_as_arg),
    )
}

/// The alert for a file dialog that gave no path back.
pub fn report_file_dialog_failure() -> (a: Alert)
    ensures
        !a.from_arg,
        a.kind == AlertKind::Information,
        a.title@ == "No Path Provided"@,
        a.message@ == "We didn't get a path back from the dialog box."@,
{
    Alert {
        from_arg: false,
        kind: AlertKind::Information,
        title: String::from_str("No Path Provided"),
        message: String::from_str("We didn't get a path back from the dialog box."),
    }
}

/// The identifier of the button that cancels, in a question to the user.
pub const CANCEL_BUTTON_ID: i32 = 0;

/// The identifier of the button that confirms, in a question to the user.
pub const CONFIRMATION_BUTTON_ID: i32 = 1;

/// The line reported on standard error while a question waits for the
/// user on the window.
pub fn conference_report(kind: AlertKind, message: &str) -> (line: String)
    ensures
        line@ == kind_name(kind) + ": "@ + message@
            + ".\n This needs your attention on the currently open window."@,
{
    let mut line = String::from_str(message_box_flag_as_str(kind));
    line.append(": ");
    line.append(message);
    line.append(".\n This needs your attention on the currently open window.");
    line
}

/// Whether the user confirmed, given the identifier of the button they
/// clicked, or `None` when they closed the question instead.
pub fn confirmation_from_answer(clicked_button_id: Option<i32>) -> (confirmed: bool)
    ensures
        confirmed == (clicked_button_id == Some(CONFIRMATION_BUTTON_ID)),
{
    match clicked_button_id {
        Some(id) => id == CONFIRMATION_BUTTON_ID,
        None => false,
    }
}

} // verus!

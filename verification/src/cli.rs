//! The command line: what it asks for, and what is printed.

use vstd::prelude::*;

use crate::cron::{CronEntry, RemoveResult};
use crate::cron_view::{entry_text, format_entry_line, times_possible, EntryTimes};
use crate::text::{
    begins_with, debug_of, debug_text, decimal, decimal_of, join, joined_with,
    law_join_shows_each, law_lines_are_parted_by_line_feeds, law_trimming_strips_the_ends,
    lemma_occurs_between, lemma_occurs_in_longer, lines, lines_of, occurs_in, same, stripped,
    stripped_at, texts, trim, trimmed,
};
use crate::time::{Moment, MAX_SECS};

verus! {

/// What the command line asks for.
#[derive(Debug)]
pub enum Command {
    /// Run the daemon.
    Daemon,
    /// Show the scheduled entries.
    CronList,
    /// Remove the scheduled entry with this id or prefix.
    CronRemove(String),
    /// Show the usage.
    Help,
    /// Something that is not understood.
    Unknown(String),
}

/// What the command line asks for.
pub enum CommandView {
    Daemon,
    CronList,
    CronRemove(Seq<char>),
    Help,
    Unknown(Seq<char>),
}

impl View for Command {
    type V = CommandView;

    open spec fn view(&self) -> CommandView {
        match self {
            Command::Daemon => CommandView::Daemon,
            Command::CronList => CommandView::CronList,
            Command::CronRemove(id) => CommandView::CronRemove(id@),
            Command::Help => CommandView::Help,
            Command::Unknown(line) => CommandView::Unknown(line@),
        }
    }
}

/// What the arguments ask for.
pub open spec fn command_of(args: Seq<Seq<char>>) -> CommandView {
    if args.len() == 0 {
        CommandView::Daemon
    } else if args.len() == 2 && args[0] == "cron"@ && args[1] == "list"@ {
        CommandView::CronList
    } else if args.len() == 3 && args[0] == "cron"@ && args[1] == "rm"@ {
        CommandView::CronRemove(args[2])
    } else if args.len() == 1 && (args[0] == "help"@ || args[0] == "-h"@ || args[0]
        == "--help"@) {
        CommandView::Help
    } else {
        CommandView::Unknown(joined_with(args, " "@))
    }
}

/// What the arguments ask for.
pub fn parse_command(args: &Vec<String>) -> (c: Command)
    ensures
        c@ == command_of(texts(args@)),
{
    let ghost all = texts(args@);
    assert(forall|i: int| 0 <= i < args@.len() ==> all[i] == (#[trigger] args@[i])@);
    if args.len() == 0 {
        return Command::Daemon;
    }
    if args.len() == 2 && same(args[0].as_str(), "cron") && same(args[1].as_str(), "list") {
        return Command::CronList;
    }
    if args.len() == 3 && same(args[0].as_str(), "cron") && same(args[1].as_str(), "rm") {
        return Command::CronRemove(args[2].clone());
    }
    if args.len() == 1 && (same(args[0].as_str(), "help") || same(args[0].as_str(), "-h") || same(
        args[0].as_str(),
        "--help",
    )) {
        return Command::Help;
    }
    Command::Unknown(join(args, " "))
}

/// How the program is used.
pub open spec fn usage_text() -> Seq<char> {
    "usage:\n  glass                 run the orchestrator daemon\n  glass cron list       show currently scheduled cron entries\n  glass cron rm <id>    remove a scheduled entry (id or unique prefix)\n  glass help            show this message\n"@
}

/// How the program is used.
pub fn print_usage() -> (s: String)
    ensures
        s@ == usage_text(),
{
    "usage:\n  glass                 run the orchestrator daemon\n  glass cron list       show currently scheduled cron entries\n  glass cron rm <id>    remove a scheduled entry (id or unique prefix)\n  glass help            show this message\n".to_owned()
}

/// What is printed before the usage for a command that is not understood.
pub fn unknown_command(line: &str) -> (s: String)
    ensures
        s@ == "error: unknown command: "@ + line@ + "\n\n"@,
{
    let mut s: String = "error: unknown command: ".to_owned();
    s.append(line);
    s.append("\n\n");
    s
}

/// What is printed, and how the program exits.
#[derive(Debug)]
pub struct Report {
    pub out: String,
    pub err: String,
    pub code: i32,
}

/// The first line of a prompt, trimmed.
pub open spec fn first_line(what: Seq<char>) -> Seq<char> {
    if lines_of(what).len() == 0 {
        Seq::empty()
    } else {
        trimmed(lines_of(what)[0])
    }
}

/// The ids, each on a line of its own.
pub open spec fn id_lines(ids: Seq<Seq<char>>) -> Seq<char>
    decreases ids.len(),
{
    if ids.len() == 0 {
        Seq::empty()
    } else {
        id_lines(ids.drop_last()) + ("  "@ + ids.last() + "\n"@)
    }
}

/// What is printed for a request to remove the entry `asked`, and how the program
/// exits.
pub open spec fn remove_report_of(r: RemoveResult, asked: Seq<char>) -> (Seq<char>, Seq<char>, int) {
    match r {
        RemoveResult::Removed(e) => (
            "Removed cron entry "@ + e.id@ + ".\n"@ + if first_line(e.what@).len() == 0 {
                Seq::empty()
            } else {
                "  prompt: "@ + first_line(e.what@) + "\n"@
            },
            Seq::empty(),
            0,
        ),
        RemoveResult::NotFound => (
            Seq::empty(),
            "No cron entry matches "@ + debug_text(asked) + ".\n"@,
            1,
        ),
        RemoveResult::Ambiguous(ids) => (
            Seq::empty(),
            "Prefix "@ + debug_text(asked) + " matches "@ + decimal_of(ids@.len())
                + " entries; use a longer prefix or the full id:\n"@ + id_lines(texts(ids@)),
            1,
        ),
    }
}

/// What is printed for a request to remove the entry `asked`.
pub fn remove_report(r: &RemoveResult, asked: &str) -> (report: Report)
    ensures
        (report.out@, report.err@, report.code as int) == remove_report_of(*r, asked@),
{
    match r {
        RemoveResult::Removed(entry) => {
            let mut out: String = "Removed cron entry ".to_owned();
            out.append(entry.id.as_str());
            out.append(".\n");
            let all: Vec<String> = lines(entry.what.as_str());
            let mut preview: String = String::new();
            if all.len() > 0 {
                assert(texts(all@)[0] == all@[0]@);
                preview = trim(all[0].as_str());
            }
            assert(preview@ == first_line(entry.what@));
            let mut prompt: String = String::new();
            if !preview.as_str().is_empty() {
                prompt = "  prompt: ".to_owned();
                prompt.append(preview.as_str());
                prompt.append("\n");
            }
            out.append(prompt.as_str());
            Report { out, err: String::new(), code: 0 }
        },
        RemoveResult::NotFound => {
            let mut err: String = "No cron entry matches ".to_owned();
            err.append(debug_of(asked).as_str());
            err.append(".\n");
            Report { out: String::new(), err, code: 1 }
        },
        RemoveResult::Ambiguous(ids) => {
            let mut err: String = "Prefix ".to_owned();
            err.append(debug_of(asked).as_str());
            err.append(" matches ");
            err.append(decimal(ids.len() as u64).as_str());
            err.append(" entries; use a longer prefix or the full id:\n");
            let ghost all = texts(ids@);
            let mut listed: String = String::new();
            let mut i: usize = 0;
            while i < ids.len()
                invariant
                    i <= ids@.len(),
                    all == texts(ids@),
                    listed@ == id_lines(all.take(i as int)),
                decreases ids@.len() - i,
            {
                assert(all.take(i as int + 1).drop_last() =~= all.take(i as int));
                let mut line: String = "  ".to_owned();
                line.append(ids[i].as_str());
                line.append("\n");
                listed.append(line.as_str());
                i += 1;
            }
            assert(all.take(i as int) =~= all);
            err.append(listed.as_str());
            Report { out: String::new(), err, code: 1 }
        },
    }
}

/// Entries as they are shown, each followed by an empty line.
pub open spec fn shown_entries(shown: Seq<Seq<char>>) -> Seq<char>
    decreases shown.len(),
{
    if shown.len() == 0 {
        Seq::empty()
    } else {
        shown_entries(shown.drop_last()) + shown.last() + "\n"@
    }
}

/// The list of scheduled entries, given how each is shown.
pub open spec fn list_text(shown: Seq<Seq<char>>) -> Seq<char> {
    if shown.len() == 0 {
        "No scheduled entries.\n"@
    } else {
        decimal_of(shown.len()) + " scheduled "@ + (if shown.len() == 1 {
            "entry"@
        } else {
            "entries"@
        }) + ":\n\n"@ + shown_entries(shown)
    }
}

/// The list of scheduled entries, given how each is shown.
pub fn list_report(shown: &Vec<String>) -> (s: String)
    ensures
        s@ == list_text(texts(shown@)),
{
    if shown.len() == 0 {
        return "No scheduled entries.\n".to_owned();
    }
    let ghost all = texts(shown@);
    let mut entries: String = String::new();
    let mut i: usize = 0;
    while i < shown.len()
        invariant
            i <= shown@.len(),
            all == texts(shown@),
            entries@ == shown_entries(all.take(i as int)),
        decreases shown@.len() - i,
    {
        assert(all.take(i as int + 1).drop_last() =~= all.take(i as int));
        entries.append(shown[i].as_str());
        entries.append("\n");
        i += 1;
    }
    assert(all.take(i as int) =~= all);
    let mut s: String = decimal(shown.len() as u64);
    s.append(" scheduled ");
    s.append(
        if shown.len() == 1 {
            "entry"
        } else {
            "entries"
        },
    );
    s.append(":\n\n");
    s.append(entries.as_str());
    s
}

/// Whether `text` is an entry as it is shown in some time zone.
pub open spec fn shows(entry: CronEntry, now: Moment, text: Seq<char>) -> bool {
    exists|times: EntryTimes| #[trigger]
        times_possible(entry@, now, times) && text == entry_text(entry@, now, times)
}

/// The list of scheduled entries, with their times in local time.
pub fn cron_list(entries: &Vec<CronEntry>, now: &Moment) -> (s: String)
    requires
        now.wf(),
        now.secs < MAX_SECS,
    ensures
        exists|shown: Seq<Seq<char>>|
            {
                &&& s@ == #[trigger] list_text(shown)
                &&& shown.len() == entries@.len()
                &&& forall|i: int|
                    0 <= i < entries@.len() ==> shows(entries@[i], *now, #[trigger] shown[i])
            },
{
    let mut shown: Vec<String> = Vec::new();
    let mut i: usize = 0;
    while i < entries.len()
        invariant
            i <= entries@.len(),
            now.wf(),
            now.secs < MAX_SECS,
            shown@.len() == i,
            forall|j: int| 0 <= j < i ==> shows(entries@[j], *now, #[trigger] texts(shown@)[j]),
        decreases entries@.len() - i,
    {
        let ghost before = texts(shown@);
        let line: String = format_entry_line(&entries[i], now);
        let ghost l = line@;
        assert(shows(entries@[i as int], *now, l));
        shown.push(line);
        assert(texts(shown@) =~= before.push(l));
        i += 1;
    }
    let s: String = list_report(&shown);
    assert(s@ == list_text(texts(shown@)));
    s
}

/// No argument asks for the daemon; `cron list` and `cron rm` with an id ask for just that,
/// with the id as it was given; a single word for help asks for the usage; and anything
/// else is not understood, and told with all its words.
pub proof fn law_which_command_is_asked_for(args: Seq<Seq<char>>, i: int)
    ensures
        command_of(args) is Daemon <==> args.len() == 0,
        command_of(args) is CronList <==> args =~= seq!["cron"@, "list"@],
        command_of(args) is CronRemove <==> args.len() == 3 && args =~= seq![
            "cron"@,
            "rm"@,
            args[2],
        ],
        command_of(args) matches CommandView::CronRemove(id) ==> id == args[2],
        command_of(args) is Help <==> args =~= seq!["help"@] || args =~= seq!["-h"@] || args
            =~= seq!["--help"@],
        command_of(args) matches CommandView::Unknown(line) ==> (0 <= i < args.len() ==> occurs_in(
            args[i],
            line,
        )),
{
    if 0 <= i < args.len() {
        law_join_shows_each(args, " "@, i);
    }
}

/// What is printed of a prompt is its first line, less the white space at its ends.
pub proof fn law_first_line_of_a_prompt(line: Seq<char>, rest: Seq<char>)
    requires
        forall|i: int| 0 <= i < line.len() ==> line[i] != '\n',
        line.len() > 0 ==> line.last() != '\r',
    ensures
        stripped(line, first_line(line.push('\n') + rest)),
        stripped(line, first_line(line)),
{
    law_lines_are_parted_by_line_feeds(line, rest);
    law_trimming_strips_the_ends(line);
    if line.len() == 0 {
        assert(line =~= Seq::empty());
        assert(stripped_at(line, Seq::empty(), 0, 0));
    } else {
        assert(lines_of(line)[0] == line);
    }
    assert(lines_of(line.push('\n') + rest)[0] == line);
}

/// The program exits well exactly where an entry was removed. Then the entry's id is
/// printed; otherwise only an error is, which shows what was asked for, and each id that it
/// could have been.
pub proof fn law_removal_is_reported(r: RemoveResult, asked: Seq<char>, i: int)
    ensures
        ({
            let (out, err, code) = remove_report_of(r, asked);
            match r {
                RemoveResult::Removed(e) => {
                    &&& code == 0
                    &&& err.len() == 0
                    &&& begins_with(out, "Removed cron entry "@ + e.id@ + ".\n"@)
                    &&& first_line(e.what@).len() > 0 ==> out == "Removed cron entry "@ + e.id@
                        + ".\n"@ + ("  prompt: "@ + first_line(e.what@) + "\n"@)
                    &&& first_line(e.what@).len() == 0 ==> out == "Removed cron entry "@ + e.id@
                        + ".\n"@
                },
                RemoveResult::NotFound => {
                    &&& code == 1
                    &&& out.len() == 0
                    &&& occurs_in(debug_text(asked), err)
                },
                RemoveResult::Ambiguous(ids) => {
                    &&& code == 1
                    &&& out.len() == 0
                    &&& occurs_in(debug_text(asked), err)
                    &&& 0 <= i < ids@.len() ==> occurs_in("  "@ + ids@[i]@ + "\n"@, err)
                },
            }
        }),
{
    let (out, err, code) = remove_report_of(r, asked);
    match r {
        RemoveResult::Removed(e) => {
            let head = "Removed cron entry "@ + e.id@ + ".\n"@;
            assert(out.subrange(0, head.len() as int) =~= head);
            if first_line(e.what@).len() == 0 {
                assert(out =~= head);
            }
        },
        RemoveResult::NotFound => {
            lemma_occurs_between("No cron entry matches "@, debug_text(asked), ".\n"@);
        },
        RemoveResult::Ambiguous(ids) => {
            let rest = " matches "@ + decimal_of(ids@.len())
                + " entries; use a longer prefix or the full id:\n"@ + id_lines(texts(ids@));
            lemma_occurs_between("Prefix "@, debug_text(asked), rest);
            assert("Prefix "@ + debug_text(asked) + rest =~= err);
            if 0 <= i < ids@.len() {
                let all = texts(ids@);
                lemma_id_occurs(all, i);
                let head = "Prefix "@ + debug_text(asked) + " matches "@ + decimal_of(ids@.len())
                    + " entries; use a longer prefix or the full id:\n"@;
                lemma_occurs_in_longer(
                    "  "@ + all[i] + "\n"@,
                    head,
                    id_lines(all),
                    Seq::empty(),
                );
                assert(head + id_lines(all) + Seq::<char>::empty() =~= err);
            }
        },
    }
}

proof fn lemma_id_occurs(ids: Seq<Seq<char>>, i: int)
    requires
        0 <= i < ids.len(),
    ensures
        occurs_in("  "@ + ids[i] + "\n"@, id_lines(ids)),
    decreases ids.len(),
{
    let line = "  "@ + ids[i] + "\n"@;
    let before = id_lines(ids.drop_last());
    let last = "  "@ + ids.last() + "\n"@;
    if i == ids.len() - 1 {
        lemma_occurs_between(before, line, Seq::empty());
        assert(before + line + Seq::<char>::empty() =~= id_lines(ids));
    } else {
        lemma_id_occurs(ids.drop_last(), i);
        assert(ids.drop_last()[i] == ids[i]);
        lemma_occurs_in_longer(line, Seq::empty(), before, last);
        assert(Seq::<char>::empty() + before + last =~= id_lines(ids));
    }
}

/// The list tells how many entries there are, and shows each of them.
pub proof fn law_list_shows_every_entry(shown: Seq<Seq<char>>, i: int)
    requires
        0 <= i < shown.len(),
    ensures
        shown.len() == 1 ==> list_text(shown) == "1 scheduled entry:\n\n"@ + shown_entries(shown),
        shown.len() > 1 ==> list_text(shown) == decimal_of(shown.len())
            + " scheduled entries:\n\n"@ + shown_entries(shown),
        occurs_in(shown[i] + "\n"@, list_text(shown)),
{
    let s = list_text(shown);
    let all = shown_entries(shown);
    let head = s.take(s.len() - all.len());
    assert(s =~= head + all + Seq::<char>::empty());
    reveal_strlit("1 scheduled entry:\n\n");
    reveal_strlit(" scheduled entries:\n\n");
    reveal_strlit(" scheduled ");
    reveal_strlit("entry");
    reveal_strlit("entries");
    reveal_strlit(":\n\n");
    if shown.len() == 1 {
        assert(decimal_of(1) =~= seq!['1']);
        assert(decimal_of(1) + " scheduled "@ + "entry"@ + ":\n\n"@
            =~= "1 scheduled entry:\n\n"@);
    } else {
        assert(" scheduled "@ + "entries"@ + ":\n\n"@ =~= " scheduled entries:\n\n"@);
        assert(s =~= decimal_of(shown.len()) + (" scheduled "@ + "entries"@ + ":\n\n"@) + all);
    }
    lemma_entry_occurs(shown, i);
    lemma_occurs_in_longer(shown[i] + "\n"@, head, all, Seq::empty());
}

/// Entries are listed one after the other, in their order, with an empty line behind each.
pub proof fn law_entries_are_listed_in_order(a: Seq<Seq<char>>, b: Seq<Seq<char>>)
    ensures
        shown_entries(a + b) == shown_entries(a) + shown_entries(b),
        a.len() == 1 ==> shown_entries(a) == a[0].push('\n'),
    decreases b.len(),
{
    reveal_strlit("\n");
    if a.len() == 1 {
        assert(a.drop_last() =~= Seq::empty());
        reveal_with_fuel(shown_entries, 2);
        assert(shown_entries(a) =~= a[0].push('\n'));
    }
    if b.len() == 0 {
        assert(a + b =~= a);
        assert(shown_entries(a + b) =~= shown_entries(a) + shown_entries(b));
    } else {
        law_entries_are_listed_in_order(a, b.drop_last());
        assert((a + b).drop_last() =~= a + b.drop_last());
        assert(shown_entries(a + b) =~= shown_entries(a) + shown_entries(b));
    }
}

proof fn lemma_entry_occurs(shown: Seq<Seq<char>>, i: int)
    requires
        0 <= i < shown.len(),
    ensures
        occurs_in(shown[i] + "\n"@, shown_entries(shown)),
{
    let x = seq![shown[i]];
    let before = shown.take(i);
    let after = shown.skip(i + 1);
    assert(shown =~= before + (x + after));
    law_entries_are_listed_in_order(before, x + after);
    law_entries_are_listed_in_order(x, after);
    assert(shown[i] + "\n"@ =~= shown_entries(x)) by {
        reveal_strlit("\n");
    }
    lemma_occurs_between(shown_entries(before), shown_entries(x), shown_entries(after));
    assert(shown_entries(before) + shown_entries(x) + shown_entries(after) =~= shown_entries(
        shown,
    ));
}

/// Where nothing is scheduled the list says just that.
pub proof fn law_empty_list_says_so(shown: Seq<Seq<char>>)
    requires
        shown.len() == 0,
    ensures
        list_text(shown) == "No scheduled entries.\n"@,
{
}

} // verus!

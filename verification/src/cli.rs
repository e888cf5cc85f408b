//! The command line: which commands exist, what each needs, and what a
//! validated command line asks the program to do.

use vstd::prelude::*;
use vstd::string::*;

use crate::text::same_text;

verus! {

/// The commands the program knows.
pub open spec fn is_known_command(c: Seq<char>) -> bool {
    ||| c == "build"@
    ||| c == "clean"@
    ||| c == "new"@
    ||| c == "delete"@
    ||| c == "deleteall"@
    ||| c == "livereload"@
    ||| c == "server"@
}

/// The commands that need a post name after them.
pub open spec fn needs_post_name(c: Seq<char>) -> bool {
    c == "new"@ || c == "delete"@
}

/// The texts of the arguments.
pub open spec fn args_view(args: Seq<String>) -> Seq<Seq<char>> {
    args.map_values(|a: String| a@)
}

/// The words joined with single spaces, as `join(" ")` gives them.
pub open spec fn join_words(words: Seq<Seq<char>>) -> Seq<char>
    decreases words.len(),
{
    if words.len() == 0 {
        Seq::empty()
    } else if words.len() == 1 {
        words[0]
    } else {
        join_words(words.drop_last()) + " "@ + words.last()
    }
}

/// A validated command line.
pub struct Cli<'a> {
    command: String,
    all_args: &'a [String],
}

/// What a validated command line asks for.
pub enum CliAction {
    /// Generate the site for publishing and for the web server, and serve it.
    Build,
    /// Empty the build folder.
    Clean,
    /// Create the post with this name.
    CreatePost(String),
    /// Delete the post with this name.
    DeletePost(String),
    /// Ask, then delete all posts and the build folder's content.
    DeleteAll,
    /// Regenerate, serve, and regenerate on changes: `livereload`, and
    /// `server`, which opens the web server with reload on changes.
    LiveReload,
}

/// An answer to the question whether to delete all posts.
#[derive(Debug, PartialEq, Eq, Clone, Copy)]
pub enum DeletionAnswer {
    Yes,
    No,
    Invalid,
}

/// The answer that a line typed in response means, its last character removed.
pub open spec fn deletion_answer_spec(line: Seq<char>) -> DeletionAnswer {
    let a = line.drop_last();
    if a == "y"@ || a == "yes"@ {
        DeletionAnswer::Yes
    } else if a == "n"@ || a == "no"@ {
        DeletionAnswer::No
    } else {
        DeletionAnswer::Invalid
    }
}

impl<'a> Cli<'a> {
    /// Every command line the program keeps names a known command, with a post
    /// name where the command needs one.
    #[verifier::type_invariant]
    closed spec fn wf(self) -> bool {
        &&& self.all_args@.len() >= 2
        &&& self.command@ == self.all_args@[1]@
        &&& is_known_command(self.command@)
        &&& needs_post_name(self.command@) ==> self.all_args@.len() >= 3
    }

    /// The command.
    pub closed spec fn command(self) -> Seq<char> {
        self.command@
    }

    /// The arguments, the program's name first.
    pub closed spec fn arguments(self) -> Seq<Seq<char>> {
        args_view(self.all_args@)
    }

    /// Validates the arguments: at least a command, a post name for `new` and
    /// `delete`, and a known command.
    pub fn new(args: &'a [String]) -> (r: Result<Cli<'a>, &'static str>)
        ensures
            args@.len() < 2 ==> (r matches Err(e) && e@ == "not enough arg2s"@),
            args@.len() >= 2 && needs_post_name(args@[1]@) && args@.len() < 3 ==> (r matches Err(e)
                && e@ == "not enough arguments, please provide the post name"@),
            args@.len() >= 2 && !(needs_post_name(args@[1]@) && args@.len() < 3)
                && !is_known_command(args@[1]@) ==> (r matches Err(e) && e@
                == "you entered an unknown command. current commands are \nbuild\nclean\nnew\ndelete\ndeleteall"@),
            args@.len() >= 2 && !(needs_post_name(args@[1]@) && args@.len() < 3)
                && is_known_command(args@[1]@) ==> (r matches Ok(c) && c.command() == args@[1]@
                && c.arguments() == args_view(args@)),
    {
        if args.len() < 2 {
            return Err("not enough arg2s");
        }
        let command = args[1].clone();
        let c = command.as_str();
        if same_text(c, "new") || same_text(c, "delete") {
            if args.len() < 3 {
                return Err("not enough arguments, please provide the post name");
            }
        }
        let known = same_text(c, "build") || same_text(c, "clean") || same_text(c, "new")
            || same_text(c, "delete") || same_text(c, "deleteall") || same_text(c, "livereload")
            || same_text(c, "server");
        if !known {
            return Err(
                "you entered an unknown command. current commands are \nbuild\nclean\nnew\ndelete\ndeleteall",
            );
        }
        let all_args = args;
        Ok(Cli { command, all_args })
    }

    /// The words after the command joined with spaces: the post name.
    fn post_name(&self) -> (r: String)
        ensures
            r@ == join_words(self.arguments().subrange(2, self.arguments().len() as int)),
    {
        proof {
            use_type_invariant(self);
        }
        let args = self.all_args;
        let ghost words = args_view(args@);
        let mut s = String::new();
        let mut i: usize = 2;
        assert(words.subrange(2, 2) =~= Seq::<Seq<char>>::empty());
        while i < args.len()
            invariant
                words == args_view(args@),
                2 <= i <= args@.len(),
                s@ == join_words(words.subrange(2, i as int)),
            decreases args@.len() - i,
        {
            let ghost sub = words.subrange(2, i + 1);
            assert(sub.drop_last() =~= words.subrange(2, i as int));
            if i > 2 {
                s.append(" ");
            } else {
                assert(s@ =~= Seq::<char>::empty());
            }
            s.append(args[i].as_str());
            i = i + 1;
        }
        assert(words.subrange(2, i as int) =~= words.subrange(2, words.len() as int));
        s
    }

    /// What the command line asks for.
    pub fn action(&self) -> (r: CliAction)
        ensures
            self.command() == "build"@ ==> r is Build,
            self.command() == "clean"@ ==> r is Clean,
            self.command() == "new"@ ==> (r matches CliAction::CreatePost(name) && name@
                == join_words(self.arguments().subrange(2, self.arguments().len() as int))),
            self.command() == "delete"@ ==> (r matches CliAction::DeletePost(name) && name@
                == join_words(self.arguments().subrange(2, self.arguments().len() as int))),
            self.command() == "deleteall"@ ==> r is DeleteAll,
            self.command() == "livereload"@ ==> r is LiveReload,
            self.command() == "server"@ ==> r is LiveReload,
    {
        proof {
            use_type_invariant(self);
            reveal_strlit("build");
            reveal_strlit("clean");
            reveal_strlit("new");
            reveal_strlit("delete");
            reveal_strlit("deleteall");
            reveal_strlit("livereload");
            reveal_strlit("server");
            assert("build"@[0] != "clean"@[0]);
            assert("build"@.len() != "new"@.len() && "build"@.len() != "delete"@.len());
            assert("clean"@.len() != "new"@.len() && "clean"@.len() != "delete"@.len());
            assert("new"@.len() != "delete"@.len() && "new"@.len() != "deleteall"@.len());
            assert("delete"@.len() != "deleteall"@.len());
            assert("server"@[0] != "build"@[0] && "server"@[0] != "clean"@[0]);
            assert("server"@[0] != "new"@[0] && "server"@[0] != "delete"@[0]);
            assert("server"@[0] != "deleteall"@[0]);
        }
        let c = self.command.as_str();
        if same_text(c, "build") {
            CliAction::Build
        } else if same_text(c, "clean") {
            CliAction::Clean
        } else if same_text(c, "new") {
            CliAction::CreatePost(self.post_name())
        } else if same_text(c, "delete") {
            CliAction::DeletePost(self.post_name())
        } else if same_text(c, "deleteall") {
            CliAction::DeleteAll
        } else {
            CliAction::LiveReload
        }
    }

    /// What a line typed at the deletion question means; its last character,
    /// the line end, is dropped first.
    pub fn deletion_answer(line: &str) -> (r: DeletionAnswer)
        requires
            line@.len() > 0,
        ensures
            r == deletion_answer_spec(line@),
    {
        let n = line.unicode_len();
        let a = line.substring_char(0, n - 1);
        assert(a@ =~= line@.drop_last());
        if same_text(a, "y") || same_text(a, "yes") {
            DeletionAnswer::Yes
        } else if same_text(a, "n") || same_text(a, "no") {
            DeletionAnswer::No
        } else {
            DeletionAnswer::Invalid
        }
    }
}

} // verus!

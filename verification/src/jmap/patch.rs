//! Changes to many emails at once, as Email/set takes them.
use vstd::prelude::*;

use io_jmap::rfc8621::email::set::JmapEmailSetArgs;

use crate::flag::types::FlagOp;
use crate::jmap::wire::{
    args_add_to_mailbox, args_destroy, args_patches, args_remove_from_mailbox,
    args_replace_keywords, args_set_keyword, args_unset_keyword, email_set_args, no_patches,
    with_patch, EmailPatch,
};
use crate::text::{copy_texts, texts};

verus! {

/// The changes with more of them to one email, in order.
pub open spec fn with_patches(
    patches: Map<Seq<char>, Seq<EmailPatch>>,
    id: Seq<char>,
    more: Seq<EmailPatch>,
) -> Map<Seq<char>, Seq<EmailPatch>>
    decreases more.len(),
{
    if more.len() == 0 {
        patches
    } else {
        with_patch(with_patches(patches, id, more.drop_last()), id, more.last())
    }
}

/// The same changes to each email of a list.
pub open spec fn each_patched(ids: Seq<Seq<char>>, more: Seq<EmailPatch>) -> Map<Seq<char>, Seq<EmailPatch>>
    decreases ids.len(),
{
    if ids.len() == 0 {
        no_patches()
    } else {
        with_patches(each_patched(ids.drop_last(), more), ids.last(), more)
    }
}

/// The changes that add, replace or remove keywords.
pub open spec fn keyword_patches(op: FlagOp, words: Seq<Seq<char>>) -> Seq<EmailPatch> {
    match op {
        FlagOp::Add => words.map_values(|word: Seq<char>| EmailPatch::SetKeyword(word)),
        FlagOp::Remove => words.map_values(|word: Seq<char>| EmailPatch::UnsetKeyword(word)),
        FlagOp::Replace => seq![EmailPatch::ReplaceKeywords(words.to_set())],
    }
}

/// Queues a change of keywords for one email.
fn queue_keywords(args: &mut JmapEmailSetArgs, id: &str, words: &Vec<String>, op: FlagOp)
    ensures
        args_patches(*final(args)) == with_patches(
            args_patches(*old(args)),
            id@,
            keyword_patches(op, words.deep_view()),
        ),
        args_destroy(*final(args)) == args_destroy(*old(args)),
{
    let ghost was = args_patches(*args);
    let ghost kept = args_destroy(*args);
    let ghost all = keyword_patches(op, words.deep_view());
    if let FlagOp::Replace = op {
        args_replace_keywords(args, id, copy_texts(words));
        proof {
            assert(all.drop_last() =~= seq![]);
            assert(with_patches(was, id@, all.drop_last()) == was);
        }
        return;
    }
    proof {
        assert(all.take(0) =~= seq![]);
    }
    let mut i: usize = 0;
    while i < words.len()
        invariant
            i <= words@.len(),
            op is Add || op is Remove,
            all == keyword_patches(op, words.deep_view()),
            args_patches(*args) == with_patches(was, id@, all.take(i as int)),
            args_destroy(*args) == kept,
        decreases words@.len() - i,
    {
        if let FlagOp::Add = op {
            args_set_keyword(args, id, words[i].as_str());
        } else {
            args_unset_keyword(args, id, words[i].as_str());
        }
        proof {
            assert(all.take(i + 1).drop_last() =~= all.take(i as int));
            assert(all.take(i + 1).last() == all[i as int]);
            assert(words.deep_view()[i as int] == words@[i as int]@);
        }
        i = i + 1;
    }
    proof {
        assert(all.take(all.len() as int) =~= all);
    }
}

/// Queues a change of keywords for each email of a list.
pub fn keyword_args(ids: &[&str], words: &Vec<String>, op: FlagOp) -> (r: JmapEmailSetArgs)
    ensures
        args_patches(r) == each_patched(texts(ids@), keyword_patches(op, words.deep_view())),
        args_destroy(r).len() == 0,
{
    let mut args = email_set_args();
    let ghost all = texts(ids@);
    let ghost more = keyword_patches(op, words.deep_view());
    proof {
        assert(all.take(0) =~= seq![]);
    }
    let mut i: usize = 0;
    while i < ids.len()
        invariant
            i <= ids@.len(),
            all == texts(ids@),
            more == keyword_patches(op, words.deep_view()),
            args_patches(args) == each_patched(all.take(i as int), more),
            args_destroy(args).len() == 0,
        decreases ids@.len() - i,
    {
        queue_keywords(&mut args, ids[i], words, op);
        proof {
            assert(all.take(i + 1).drop_last() =~= all.take(i as int));
            assert(all.take(i + 1).last() == ids@[i as int]@);
        }
        i = i + 1;
    }
    proof {
        assert(all.take(all.len() as int) =~= all);
    }
    args
}

/// The changes that add an email to a mailbox and, for a move, take it out
/// of another.
pub open spec fn mailbox_patches(to: Seq<char>, from: Option<Seq<char>>) -> Seq<EmailPatch> {
    match from {
        Some(from) => seq![EmailPatch::AddToMailbox(to), EmailPatch::RemoveFromMailbox(from)],
        None => seq![EmailPatch::AddToMailbox(to)],
    }
}

/// Queues for each email of a list its addition to a mailbox and, for a
/// move, its removal from another.
pub fn mailbox_args(ids: &[&str], to: &str, from: Option<&str>) -> (r: JmapEmailSetArgs)
    ensures
        args_patches(r) == each_patched(
            texts(ids@),
            mailbox_patches(
                to@,
                match from {
                    Some(from) => Some(from@),
                    None => None,
                },
            ),
        ),
        args_destroy(r).len() == 0,
{
    let ghost source = match from {
        Some(from) => Some(from@),
        None => None,
    };
    let mut args = email_set_args();
    let ghost all = texts(ids@);
    let ghost more = mailbox_patches(to@, source);
    proof {
        assert(all.take(0) =~= seq![]);
    }
    let mut i: usize = 0;
    while i < ids.len()
        invariant
            i <= ids@.len(),
            all == texts(ids@),
            source == (match from {
                Some(from) => Some(from@),
                None => None,
            }),
            more == mailbox_patches(to@, source),
            args_patches(args) == each_patched(all.take(i as int), more),
            args_destroy(args).len() == 0,
        decreases ids@.len() - i,
    {
        let ghost was = args_patches(args);
        let ghost id = ids@[i as int]@;
        args_add_to_mailbox(&mut args, ids[i], to);
        proof {
            let one = seq![EmailPatch::AddToMailbox(to@)];
            assert(one.drop_last() =~= seq![]);
            assert(with_patches(was, id, one.drop_last()) == was);
            assert(args_patches(args) == with_patches(was, id, one));
        }
        if let Some(from) = from {
            args_remove_from_mailbox(&mut args, ids[i], from);
            proof {
                assert(more.drop_last() =~= seq![EmailPatch::AddToMailbox(to@)]);
            }
        }
        proof {
            assert(all.take(i + 1).drop_last() =~= all.take(i as int));
            assert(all.take(i + 1).last() == id);
        }
        i = i + 1;
    }
    proof {
        assert(all.take(all.len() as int) =~= all);
    }
    args
}

/// The keywords of an email after changes to them.
pub open spec fn keywords_after(words: Set<Seq<char>>, patches: Seq<EmailPatch>) -> Set<Seq<char>>
    decreases patches.len(),
{
    if patches.len() == 0 {
        words
    } else {
        let before = keywords_after(words, patches.drop_last());
        match patches.last() {
            EmailPatch::SetKeyword(word) => before.insert(word),
            EmailPatch::UnsetKeyword(word) => before.remove(word),
            EmailPatch::ReplaceKeywords(all) => all,
            _ => before,
        }
    }
}

/// Adding keywords keeps those an email has and adds the given ones, removing
/// takes away just the given ones, and replacing leaves just the given ones.
pub proof fn law_keyword_effect(op: FlagOp, words: Seq<Seq<char>>, before: Set<Seq<char>>)
    ensures
        keywords_after(before, keyword_patches(op, words)) =~= (match op {
            FlagOp::Add => before.union(words.to_set()),
            FlagOp::Remove => before.difference(words.to_set()),
            FlagOp::Replace => words.to_set(),
        }),
    decreases words.len(),
{
    let patches = keyword_patches(op, words);
    if op is Replace {
        assert(patches.last() == EmailPatch::ReplaceKeywords(words.to_set()));
    } else if words.len() == 0 {
        assert(words.to_set() =~= Set::empty());
    } else {
        let fewer = words.drop_last();
        law_keyword_effect(op, fewer, before);
        assert(patches.drop_last() =~= keyword_patches(op, fewer));
        assert forall|word: Seq<char>| words.to_set().contains(word) == (fewer.to_set().contains(word)
            || word == words.last()) by {
            if words.contains(word) {
                let i = choose|i: int| 0 <= i < words.len() && words[i] == word;
                if i < fewer.len() {
                    assert(fewer[i] == word);
                }
            }
            if fewer.contains(word) {
                let i = choose|i: int| 0 <= i < fewer.len() && fewer[i] == word;
                assert(words[i] == word);
            }
            assert(words[words.len() - 1] == words.last());
        }
    }
}

/// More changes to one email leave the others as they were.
proof fn lemma_with_patches(patches: Map<Seq<char>, Seq<EmailPatch>>, id: Seq<char>, more: Seq<EmailPatch>)
    ensures
        forall|other: Seq<char>|
            other != id ==> (#[trigger] with_patches(patches, id, more).contains_key(other)
                <==> patches.contains_key(other)),
        forall|other: Seq<char>|
            other != id && patches.contains_key(other) ==> #[trigger] with_patches(
                patches,
                id,
                more,
            )[other] == patches[other],
        with_patches(patches, id, more).contains_key(id) <==> (patches.contains_key(id) || more.len()
            > 0),
        !patches.contains_key(id) && more.len() > 0 ==> with_patches(patches, id, more)[id] == more,
    decreases more.len(),
{
    if more.len() > 0 {
        let fewer = more.drop_last();
        lemma_with_patches(patches, id, fewer);
        if !patches.contains_key(id) {
            assert(fewer.push(more.last()) =~= more);
        }
    }
}

/// Changing the emails of a list changes these and no others, and each of
/// them, named once, exactly as asked.
pub proof fn law_each_patched(ids: Seq<Seq<char>>, more: Seq<EmailPatch>)
    requires
        more.len() > 0,
    ensures
        forall|id: Seq<char>| #[trigger] each_patched(ids, more).contains_key(id) <==> ids.contains(id),
        ids.no_duplicates() ==> forall|id: Seq<char>|
            ids.contains(id) ==> #[trigger] each_patched(ids, more)[id] == more,
    decreases ids.len(),
{
    if ids.len() > 0 {
        let fewer = ids.drop_last();
        let before = each_patched(fewer, more);
        law_each_patched(fewer, more);
        lemma_with_patches(before, ids.last(), more);
        assert forall|id: Seq<char>| ids.contains(id) == (fewer.contains(id) || id == ids.last()) by {
            if ids.contains(id) {
                let i = choose|i: int| 0 <= i < ids.len() && ids[i] == id;
                if i < fewer.len() {
                    assert(fewer[i] == id);
                }
            }
            if fewer.contains(id) {
                let i = choose|i: int| 0 <= i < fewer.len() && fewer[i] == id;
                assert(ids[i] == id);
            }
            assert(ids[ids.len() - 1] == ids.last());
        }
        if ids.no_duplicates() {
            assert(!fewer.contains(ids.last())) by {
                if fewer.contains(ids.last()) {
                    let i = choose|i: int| 0 <= i < fewer.len() && fewer[i] == ids.last();
                    assert(ids[i] == ids[ids.len() - 1]);
                }
            }
            assert(fewer.no_duplicates());
            assert forall|id: Seq<char>| ids.contains(id) implies #[trigger] each_patched(ids, more)[id]
                == more by {
                assert(fewer.contains(id) || id == ids.last());
            }
        }
    }
}

/// The mailboxes that an email is in after patches.
pub open spec fn mailboxes_after(mailboxes: Set<Seq<char>>, patches: Seq<EmailPatch>) -> Set<Seq<char>>
    decreases patches.len(),
{
    if patches.len() == 0 {
        mailboxes
    } else {
        let before = mailboxes_after(mailboxes, patches.drop_last());
        match patches.last() {
            EmailPatch::AddToMailbox(id) => before.insert(id),
            EmailPatch::RemoveFromMailbox(id) => before.remove(id),
            _ => before,
        }
    }
}

/// A copy puts an email into the destination and leaves it where it was; a
/// move takes it out of the source besides, and out of no other mailbox.
/// Neither changes its keywords.
pub proof fn law_mailbox_effect(
    to: Seq<char>,
    from: Option<Seq<char>>,
    before: Set<Seq<char>>,
    words: Set<Seq<char>>,
    mailbox: Seq<char>,
)
    ensures
        mailboxes_after(before, mailbox_patches(to, from)).contains(mailbox) <==> from != Some(mailbox)
            && (mailbox == to || before.contains(mailbox)),
        keywords_after(words, mailbox_patches(to, from)) == words,
        mailbox_patches(to, from).len() > 0,
{
    let patches = mailbox_patches(to, from);
    let one = seq![EmailPatch::AddToMailbox(to)];
    let none: Seq<EmailPatch> = seq![];
    assert(one.drop_last() =~= none);
    assert(mailboxes_after(before, none) == before);
    assert(keywords_after(words, none) == words);
    assert(mailboxes_after(before, one) == before.insert(to));
    assert(keywords_after(words, one) == words);
    if from is Some {
        assert(patches.drop_last() =~= one);
    } else {
        assert(patches =~= one);
    }
}

/// A change of keywords leaves the mailboxes of an email.
pub proof fn law_keywords_leave_mailboxes(op: FlagOp, words: Seq<Seq<char>>, mailboxes: Set<Seq<char>>)
    ensures
        mailboxes_after(mailboxes, keyword_patches(op, words)) == mailboxes,
    decreases words.len(),
{
    let patches = keyword_patches(op, words);
    if op is Replace {
        assert(patches.drop_last() =~= seq![]);
        assert(mailboxes_after(mailboxes, patches.drop_last()) == mailboxes);
    } else if words.len() > 0 {
        law_keywords_leave_mailboxes(op, words.drop_last(), mailboxes);
        assert(patches.drop_last() =~= keyword_patches(op, words.drop_last()));
    }
}

} // verus!

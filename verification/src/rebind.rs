//! The rebind table: a fixed renaming of normalized keys.
//!
//! A table maps old keys to new keys and holds each old key once. It is
//! written down as a listing of pairs; where the listing names an old key
//! more than once, the pair listed last counts.

use crate::text::{chars_of, prefix_before, string_of, take_before, texts};
use vstd::prelude::*;

verus! {

/// The mapping that a listing of pairs stands for: each pair maps its old
/// key to its new key, a later pair taking the place of an earlier one with
/// the same old key.
pub open spec fn table_of(pairs: Seq<(Seq<char>, Seq<char>)>) -> Map<Seq<char>, Seq<char>>
    decreases pairs.len(),
{
    if pairs.len() == 0 {
        Map::empty()
    } else {
        table_of(pairs.drop_last()).insert(pairs.last().0, pairs.last().1)
    }
}

/// The key that `key` is rebound to: what the table maps it to, or `key`
/// itself where the table does not hold it.
pub open spec fn rebound(table: Map<Seq<char>, Seq<char>>, key: Seq<char>) -> Seq<char> {
    if table.contains_key(key) {
        table[key]
    } else {
        key
    }
}

/// The table holds `key` at the place of the last pair listed for it.
pub proof fn lemma_table_of_last_match(pairs: Seq<(Seq<char>, Seq<char>)>, i: int, key: Seq<char>)
    requires
        0 <= i < pairs.len(),
        pairs[i].0 == key,
        forall|j: int| i < j < pairs.len() ==> pairs[j].0 != key,
    ensures
        table_of(pairs).contains_key(key),
        table_of(pairs)[key] == pairs[i].1,
    decreases pairs.len(),
{
    if i < pairs.len() - 1 {
        lemma_table_of_last_match(pairs.drop_last(), i, key);
    }
}

/// The table holds exactly the old keys of the pairs listed.
pub proof fn lemma_table_of_domain(pairs: Seq<(Seq<char>, Seq<char>)>, key: Seq<char>)
    ensures
        table_of(pairs).contains_key(key) <==> exists|j: int|
            0 <= j < pairs.len() && #[trigger] pairs[j].0 == key,
    decreases pairs.len(),
{
    if pairs.len() > 0 {
        let front = pairs.drop_last();
        lemma_table_of_domain(front, key);
        if table_of(pairs).contains_key(key) {
            if pairs.last().0 == key {
                assert(pairs[pairs.len() - 1].0 == key);
            } else {
                let j = choose|j: int| 0 <= j < front.len() && #[trigger] front[j].0 == key;
                assert(pairs[j].0 == key);
            }
        } else {
            assert forall|j: int| 0 <= j < pairs.len() implies #[trigger] pairs[j].0 != key by {
                if j < front.len() {
                    assert(front[j].0 == pairs[j].0);
                }
            }
        }
    }
}

/// Whether no two pairs have the same old key.
pub open spec fn distinct_keys(pairs: Seq<(Seq<char>, Seq<char>)>) -> bool {
    forall|i: int, j: int| 0 <= i < j < pairs.len() ==> pairs[i].0 != pairs[j].0
}

/// Listing one more pair puts it into the mapping.
pub proof fn lemma_table_of_push(pairs: Seq<(Seq<char>, Seq<char>)>, pair: (Seq<char>, Seq<char>))
    ensures
        table_of(pairs.push(pair)) == table_of(pairs).insert(pair.0, pair.1),
{
    assert(pairs.push(pair).drop_last() == pairs);
}

/// Giving the pair at place `i` another new key puts that into the mapping,
/// where no two pairs have the same old key.
pub proof fn lemma_table_of_update(pairs: Seq<(Seq<char>, Seq<char>)>, i: int, new_key: Seq<char>)
    requires
        0 <= i < pairs.len(),
        distinct_keys(pairs),
    ensures
        table_of(pairs.update(i, (pairs[i].0, new_key))) == table_of(pairs).insert(
            pairs[i].0,
            new_key,
        ),
    decreases pairs.len(),
{
    let changed = pairs.update(i, (pairs[i].0, new_key));
    let front = pairs.drop_last();
    if i == pairs.len() - 1 {
        assert(changed.drop_last() == front);
        assert(table_of(changed) =~= table_of(pairs).insert(pairs[i].0, new_key));
    } else {
        assert(changed.drop_last() == front.update(i, (front[i].0, new_key)));
        lemma_table_of_update(front, i, new_key);
        assert(pairs[i].0 != pairs[pairs.len() - 1].0);
        assert(table_of(changed) =~= table_of(pairs).insert(pairs[i].0, new_key));
    }
}

/// A listing in which no two pairs have the same old key stands for a
/// mapping of as many keys as it has pairs.
pub proof fn lemma_table_of_size(pairs: Seq<(Seq<char>, Seq<char>)>)
    requires
        distinct_keys(pairs),
    ensures
        table_of(pairs).dom().finite(),
        table_of(pairs).dom().len() == pairs.len(),
    decreases pairs.len(),
{
    if pairs.len() > 0 {
        let front = pairs.drop_last();
        let last = pairs.last();
        lemma_table_of_size(front);
        lemma_table_of_domain(front, last.0);
        assert(!table_of(front).contains_key(last.0)) by {
            if table_of(front).contains_key(last.0) {
                let j = choose|j: int| 0 <= j < front.len() && #[trigger] front[j].0 == last.0;
                assert(pairs[j].0 == pairs[pairs.len() - 1].0);
            }
        }
        assert(table_of(pairs).dom() =~= table_of(front).dom().insert(last.0));
    }
}

/// What each pair of strings holds.
pub open spec fn pairs_of(entries: Seq<(String, String)>) -> Seq<(Seq<char>, Seq<char>)> {
    entries.map_values(|e: (String, String)| (e.0@, e.1@))
}

/// Finds the pair whose old key is `key`.
fn find_key(entries: &Vec<(String, String)>, key: &String) -> (r: Option<usize>)
    ensures
        match r {
            Some(i) => i < entries.len() && pairs_of(entries@)[i as int].0 == key@,
            None => forall|j: int|
                0 <= j < entries.len() ==> (#[trigger] pairs_of(entries@)[j]).0 != key@,
        },
{
    let mut i: usize = 0;
    while i < entries.len()
        invariant
            i <= entries.len(),
            forall|j: int| 0 <= j < i ==> (#[trigger] pairs_of(entries@)[j]).0 != key@,
        decreases entries.len() - i,
    {
        if entries[i].0 == *key {
            return Some(i);
        }
        i += 1;
    }
    None
}

/// A rebind table: a mapping from old keys to new keys. It holds each old
/// key once.
pub struct RebindTable {
    entries: Vec<(String, String)>,
}

impl View for RebindTable {
    type V = Map<Seq<char>, Seq<char>>;

    /// The mapping that the table stands for.
    open spec fn view(&self) -> Map<Seq<char>, Seq<char>> {
        table_of(self.pairs())
    }
}

impl RebindTable {
    #[verifier::type_invariant]
    spec fn holds_each_key_once(&self) -> bool {
        distinct_keys(self.pairs())
    }

    /// The pairs that the table holds, no two of them with the same old key.
    pub closed spec fn pairs(&self) -> Seq<(Seq<char>, Seq<char>)> {
        pairs_of(self.entries@)
    }

    /// A table that holds no pair.
    pub fn new() -> (r: RebindTable)
        ensures
            r@ == Map::<Seq<char>, Seq<char>>::empty(),
    {
        let r = RebindTable { entries: Vec::new() };
        assert(r.pairs() =~= Seq::empty());
        r
    }

    /// Maps `old_key` to `new_key`. Where the table holds `old_key` already,
    /// the new key takes the place of the one held before, and the table
    /// grows by no pair.
    pub fn insert(&mut self, old_key: &str, new_key: &str)
        ensures
            final(self)@ == old(self)@.insert(old_key@, new_key@),
    {
        proof {
            use_type_invariant(&*self);
        }
        let wanted = old_key.to_owned();
        let mut entries: Vec<(String, String)> = Vec::new();
        core::mem::swap(&mut entries, &mut self.entries);
        let ghost before = pairs_of(entries@);
        match find_key(&entries, &wanted) {
            Some(i) => {
                entries.set(i, (wanted, new_key.to_owned()));
                proof {
                    lemma_table_of_update(before, i as int, new_key@);
                    assert(pairs_of(entries@) =~= before.update(i as int, (before[i as int].0, new_key@)));
                }
            },
            None => {
                entries.push((wanted, new_key.to_owned()));
                proof {
                    lemma_table_of_push(before, (old_key@, new_key@));
                    assert(pairs_of(entries@) =~= before.push((old_key@, new_key@)));
                }
            },
        }
        core::mem::swap(&mut entries, &mut self.entries);
    }

    /// The number of old keys that the table holds.
    pub fn len(&self) -> (r: usize)
        ensures
            self@.dom().finite(),
            r == self@.dom().len(),
    {
        proof {
            use_type_invariant(self);
            lemma_table_of_size(self.pairs());
        }
        self.entries.len()
    }

    /// The new key that the table holds for `key`, if it holds one.
    pub fn get(&self, key: &str) -> (r: Option<String>)
        ensures
            match r {
                Some(new_key) => self@.contains_key(key@) && new_key@ == self@[key@],
                None => !self@.contains_key(key@),
            },
    {
        let wanted = key.to_owned();
        match find_key(&self.entries, &wanted) {
            Some(i) => {
                proof {
                    use_type_invariant(self);
                    lemma_table_of_last_match(self.pairs(), i as int, key@);
                }
                Some(self.entries[i].1.clone())
            },
            None => {
                proof {
                    lemma_table_of_domain(self.pairs(), key@);
                }
                None
            },
        }
    }

    /// Rebinds `key`: the new key that the table holds for it, or `key`
    /// itself where the table does not hold it.
    pub fn rebind(&self, key: &str) -> (r: String)
        ensures
            r@ == rebound(self@, key@),
            !self@.contains_key(key@) ==> r@ == key@,
            self@.contains_key(key@) ==> r@ == self@[key@],
    {
        match self.get(key) {
            Some(new_key) => new_key,
            None => key.to_owned(),
        }
    }
}

/// The pairs of the fixed table, old key first, in the order of their
/// listing.
pub open spec fn fixed_pairs() -> Seq<(Seq<char>, Seq<char>)> {
    seq![
        (
            "hi_looks_like_you_have_javascript_turned_off_click_here_to_view_comments_keep_in_mind_they_may_take_a_bit_longer_to_load"@,
            "no_js_comments"@,
        ),
        ("an_alternative_front_end_to_youtube"@, "alternative_youtube_front-end"@),
        ("time_h:mm:ss:"@, "captcha_time_format"@),
        ("quota_exceeded,_try_again_in_a_few_hours"@, "quota_exceeded"@),
        (
            "unable_to_log_in_make_sure_two_factor_authentication_authenticator_or_sms_is_turned_on"@,
            "unable_to_login"@,
        ),
        (
            "login_failed_this_may_be_because_two_factor_authentication_is_not_turned_on_for_your_account"@,
            "login_failed"@,
        ),
        ("please_sign_in_using_log_in_with_google"@, "sign_in_using_google"@),
        ("password_cannot_be_longer_than_55_characters"@, "password_too_long"@),
        ("token_is_expired_please_try_again"@, "token_expired"@),
        ("family_friendly_"@, "family_friendly"@),
        ("x_uploaded_a_video"@, "upload_text"@),
        ("x_is_live"@, "channel_is_live"@),
        ("x_ago"@, "upload_date"@),
        ("norwegian_bokm\u{e5}l"@, "norwegian"@),
        ("%a_%b_%_d_%y"@, "WTF"@),
        ("x_marked_it_with_a_"@, "liked"@),
        ("[^0_9]|^1[^0_9]|$"@, "view_comments"@),
        ("[^0_9]^1[^0_9]"@, "view_comments"@),
        ("password_cannot_be_longer_than_55_characters"@, "password_too_long"@),
        ("adminprefs_modified_source_code_url_label"@, "modified_source_code_url_label"@),
        ("edited"@, "comment_edited"@),
        ("alternative_youtube_front-end"@, "about_project"@),
        (
            "export_subscriptions_as_opml_for_newpipe__freetube"@,
            "export_subscriptions_as_opml_for_other_projects"@,
        ),
        ("hidden_field_\"challenge\"_is_a_required_field"@, "challenge_is_required"@),
        ("hidden_field_\"token\"_is_a_required_field"@, "csrf_token_is_required"@),
    ]
}

/// Maps one more old key in `table`, which stands for the listing `listed`
/// so far, and hands back the listing with the pair behind it.
fn list(
    table: &mut RebindTable,
    listed: Ghost<Seq<(Seq<char>, Seq<char>)>>,
    old_key: &str,
    new_key: &str,
) -> (r: Ghost<Seq<(Seq<char>, Seq<char>)>>)
    requires
        old(table)@ == table_of(listed@),
    ensures
        r@ == listed@.push((old_key@, new_key@)),
        final(table)@ == table_of(r@),
        final(table)@ == old(table)@.insert(old_key@, new_key@),
{
    table.insert(old_key, new_key);
    proof {
        lemma_table_of_push(listed@, (old_key@, new_key@));
    }
    Ghost(listed@.push((old_key@, new_key@)))
}

/// The fixed rebind table. Its listing names one old key twice, so it holds
/// one old key less than the listing has pairs.
pub fn get_rebindings() -> (r: RebindTable)
    ensures
        r@ == table_of(fixed_pairs()),
        r@.dom().finite(),
        r@.dom().len() == 24,
{
    proof {
        reveal_strlit("hi_looks_like_you_have_javascript_turned_off_click_here_to_view_comments_keep_in_mind_they_may_take_a_bit_longer_to_load");
        assert("hi_looks_like_you_have_javascript_turned_off_click_here_to_view_comments_keep_in_mind_they_may_take_a_bit_longer_to_load"@.len() == 120);
        reveal_strlit("an_alternative_front_end_to_youtube");
        assert("an_alternative_front_end_to_youtube"@.len() == 35);
        reveal_strlit("time_h:mm:ss:");
        assert("time_h:mm:ss:"@.len() == 13);
        reveal_strlit("quota_exceeded,_try_again_in_a_few_hours");
        assert("quota_exceeded,_try_again_in_a_few_hours"@.len() == 40);
        reveal_strlit("unable_to_log_in_make_sure_two_factor_authentication_authenticator_or_sms_is_turned_on");
        assert("unable_to_log_in_make_sure_two_factor_authentication_authenticator_or_sms_is_turned_on"@.len() == 86);
        reveal_strlit("login_failed_this_may_be_because_two_factor_authentication_is_not_turned_on_for_your_account");
        assert("login_failed_this_may_be_because_two_factor_authentication_is_not_turned_on_for_your_account"@.len() == 92);
        reveal_strlit("please_sign_in_using_log_in_with_google");
        assert("please_sign_in_using_log_in_with_google"@.len() == 39);
        reveal_strlit("password_cannot_be_longer_than_55_characters");
        assert("password_cannot_be_longer_than_55_characters"@.len() == 44);
        reveal_strlit("token_is_expired_please_try_again");
        assert("token_is_expired_please_try_again"@.len() == 33);
        reveal_strlit("family_friendly_");
        assert("family_friendly_"@.len() == 16);
        reveal_strlit("x_uploaded_a_video");
        assert("x_uploaded_a_video"@.len() == 18);
        reveal_strlit("x_is_live");
        assert("x_is_live"@.len() == 9);
        reveal_strlit("x_ago");
        assert("x_ago"@.len() == 5);
        reveal_strlit("norwegian_bokm\u{e5}l");
        assert("norwegian_bokm\u{e5}l"@.len() == 16);
        reveal_strlit("%a_%b_%_d_%y");
        assert("%a_%b_%_d_%y"@.len() == 12);
        reveal_strlit("x_marked_it_with_a_");
        assert("x_marked_it_with_a_"@.len() == 19);
        reveal_strlit("[^0_9]|^1[^0_9]|$");
        assert("[^0_9]|^1[^0_9]|$"@.len() == 17);
        reveal_strlit("[^0_9]^1[^0_9]");
        assert("[^0_9]^1[^0_9]"@.len() == 14);
        reveal_strlit("adminprefs_modified_source_code_url_label");
        assert("adminprefs_modified_source_code_url_label"@.len() == 41);
        reveal_strlit("edited");
        assert("edited"@.len() == 6);
        reveal_strlit("alternative_youtube_front-end");
        assert("alternative_youtube_front-end"@.len() == 29);
        reveal_strlit("export_subscriptions_as_opml_for_newpipe__freetube");
        assert("export_subscriptions_as_opml_for_newpipe__freetube"@.len() == 50);
        reveal_strlit("hidden_field_\"challenge\"_is_a_required_field");
        assert("hidden_field_\"challenge\"_is_a_required_field"@.len() == 44);
        reveal_strlit("hidden_field_\"token\"_is_a_required_field");
        assert("hidden_field_\"token\"_is_a_required_field"@.len() == 40);
        assert("family_friendly_"@[0] != "norwegian_bokm\u{e5}l"@[0]);
        assert("quota_exceeded,_try_again_in_a_few_hours"@[0] != "hidden_field_\"token\"_is_a_required_field"@[0]);
        assert("password_cannot_be_longer_than_55_characters"@[0] != "hidden_field_\"challenge\"_is_a_required_field"@[0]);
    }
    let mut t = RebindTable::new();
    let listed: Ghost<Seq<(Seq<char>, Seq<char>)>> = Ghost(Seq::empty());
    let listed = list(&mut t, listed, "hi_looks_like_you_have_javascript_turned_off_click_here_to_view_comments_keep_in_mind_they_may_take_a_bit_longer_to_load", "no_js_comments");
    assert(t@.dom().len() == 1);
    let listed = list(&mut t, listed, "an_alternative_front_end_to_youtube", "alternative_youtube_front-end");
    assert(t@.dom().len() == 2);
    let listed = list(&mut t, listed, "time_h:mm:ss:", "captcha_time_format");
    assert(t@.dom().len() == 3);
    let listed = list(&mut t, listed, "quota_exceeded,_try_again_in_a_few_hours", "quota_exceeded");
    assert(t@.dom().len() == 4);
    let listed = list(&mut t, listed, "unable_to_log_in_make_sure_two_factor_authentication_authenticator_or_sms_is_turned_on", "unable_to_login");
    assert(t@.dom().len() == 5);
    let listed = list(&mut t, listed, "login_failed_this_may_be_because_two_factor_authentication_is_not_turned_on_for_your_account", "login_failed");
    assert(t@.dom().len() == 6);
    let listed = list(&mut t, listed, "please_sign_in_using_log_in_with_google", "sign_in_using_google");
    assert(t@.dom().len() == 7);
    let listed = list(&mut t, listed, "password_cannot_be_longer_than_55_characters", "password_too_long");
    assert(t@.dom().len() == 8);
    let listed = list(&mut t, listed, "token_is_expired_please_try_again", "token_expired");
    assert(t@.dom().len() == 9);
    let listed = list(&mut t, listed, "family_friendly_", "family_friendly");
    assert(t@.dom().len() == 10);
    let listed = list(&mut t, listed, "x_uploaded_a_video", "upload_text");
    assert(t@.dom().len() == 11);
    let listed = list(&mut t, listed, "x_is_live", "channel_is_live");
    assert(t@.dom().len() == 12);
    let listed = list(&mut t, listed, "x_ago", "upload_date");
    assert(t@.dom().len() == 13);
    let listed = list(&mut t, listed, "norwegian_bokm\u{e5}l", "norwegian");
    assert(t@.dom().len() == 14);
    let listed = list(&mut t, listed, "%a_%b_%_d_%y", "WTF");
    assert(t@.dom().len() == 15);
    let listed = list(&mut t, listed, "x_marked_it_with_a_", "liked");
    assert(t@.dom().len() == 16);
    let listed = list(&mut t, listed, "[^0_9]|^1[^0_9]|$", "view_comments");
    assert(t@.dom().len() == 17);
    let listed = list(&mut t, listed, "[^0_9]^1[^0_9]", "view_comments");
    assert(t@.dom().len() == 18);
    let listed = list(&mut t, listed, "password_cannot_be_longer_than_55_characters", "password_too_long");
    assert(t@.dom().len() == 18);
    let listed = list(&mut t, listed, "adminprefs_modified_source_code_url_label", "modified_source_code_url_label");
    assert(t@.dom().len() == 19);
    let listed = list(&mut t, listed, "edited", "comment_edited");
    assert(t@.dom().len() == 20);
    let listed = list(&mut t, listed, "alternative_youtube_front-end", "about_project");
    assert(t@.dom().len() == 21);
    let listed = list(&mut t, listed, "export_subscriptions_as_opml_for_newpipe__freetube", "export_subscriptions_as_opml_for_other_projects");
    assert(t@.dom().len() == 22);
    let listed = list(&mut t, listed, "hidden_field_\"challenge\"_is_a_required_field", "challenge_is_required");
    assert(t@.dom().len() == 23);
    let listed = list(&mut t, listed, "hidden_field_\"token\"_is_a_required_field", "csrf_token_is_required");
    assert(t@.dom().len() == 24);
    assert(listed@ =~= fixed_pairs());
    t
}

/// The part of an output line that is its key: what stands before the first
/// `=`.
pub open spec fn line_key(line: Seq<char>) -> Seq<char> {
    prefix_before(line, '=')
}

/// The keymap of a listing of output lines under `table`: each key of a
/// line that is not empty, mapped to what `table` rebinds it to.
pub open spec fn keymap_of(lines: Seq<Seq<char>>, table: Map<Seq<char>, Seq<char>>) -> Map<
    Seq<char>,
    Seq<char>,
>
    decreases lines.len(),
{
    if lines.len() == 0 {
        Map::empty()
    } else if lines.last().len() == 0 {
        keymap_of(lines.drop_last(), table)
    } else {
        keymap_of(lines.drop_last(), table).insert(
            line_key(lines.last()),
            rebound(table, line_key(lines.last())),
        )
    }
}

/// The keymap holds exactly the keys of the lines that are not empty, and
/// maps each of them to what the table rebinds it to.
pub proof fn lemma_keymap_of(lines: Seq<Seq<char>>, table: Map<Seq<char>, Seq<char>>, key: Seq<char>)
    ensures
        keymap_of(lines, table).contains_key(key) <==> exists|i: int|
            0 <= i < lines.len() && lines[i].len() > 0 && line_key(#[trigger] lines[i]) == key,
        keymap_of(lines, table).contains_key(key) ==> keymap_of(lines, table)[key] == rebound(
            table,
            key,
        ),
    decreases lines.len(),
{
    if lines.len() > 0 {
        let front = lines.drop_last();
        lemma_keymap_of(front, table, key);
        let n = lines.len() - 1;
        if keymap_of(lines, table).contains_key(key) {
            if lines.last().len() > 0 && line_key(lines.last()) == key {
                assert(lines[n].len() > 0 && line_key(lines[n]) == key);
            } else {
                let i = choose|i: int|
                    0 <= i < front.len() && front[i].len() > 0 && line_key(#[trigger] front[i])
                        == key;
                assert(lines[i].len() > 0 && line_key(lines[i]) == key);
            }
        } else {
            assert forall|i: int| 0 <= i < lines.len() && lines[i].len() > 0 implies line_key(
                #[trigger] lines[i],
            ) != key by {
                if i < n {
                    assert(front[i] == lines[i]);
                }
            }
        }
    }
}

/// The number of lines that are not empty.
pub open spec fn filled_lines(lines: Seq<Seq<char>>) -> nat
    decreases lines.len(),
{
    if lines.len() == 0 {
        0
    } else if lines.last().len() == 0 {
        filled_lines(lines.drop_last())
    } else {
        filled_lines(lines.drop_last()) + 1
    }
}

/// The keymap holds at most one key for each line that is not empty.
pub proof fn lemma_keymap_size(lines: Seq<Seq<char>>, table: Map<Seq<char>, Seq<char>>)
    ensures
        keymap_of(lines, table).dom().finite(),
        keymap_of(lines, table).dom().len() <= filled_lines(lines),
    decreases lines.len(),
{
    if lines.len() > 0 {
        lemma_keymap_size(lines.drop_last(), table);
    }
}

/// Builds the keymap of a listing of output lines under the fixed table:
/// for each line that is not empty, its key, taken up to the first `=`, is
/// mapped to what the fixed table rebinds it to. Lines with the same key
/// give one key of the keymap, so it holds at most as many keys as there
/// are lines that are not empty.
pub fn generate_ftl_rebindings(input: &Vec<String>) -> (r: RebindTable)
    ensures
        r@ == keymap_of(texts(input@), table_of(fixed_pairs())),
        r@.dom().finite(),
        r@.dom().len() <= filled_lines(texts(input@)),
{
    let fluent_rebinds = get_rebindings();
    let mut keymap = RebindTable::new();
    let mut i: usize = 0;
    assert(texts(input@).subrange(0, 0) == Seq::<Seq<char>>::empty());
    while i < input.len()
        invariant
            i <= input.len(),
            fluent_rebinds@ == table_of(fixed_pairs()),
            keymap@ == keymap_of(texts(input@).subrange(0, i as int), fluent_rebinds@),
        decreases input.len() - i,
    {
        let line = chars_of(input[i].as_str());
        proof {
            let front = texts(input@).subrange(0, i + 1);
            assert(front.drop_last() == texts(input@).subrange(0, i as int));
            assert(front.last() == line@);
        }
        if line.len() > 0 {
            let key = string_of(&take_before(&line, '='));
            let new_key = fluent_rebinds.rebind(key.as_str());
            keymap.insert(key.as_str(), new_key.as_str());
        }
        i += 1;
    }
    assert(texts(input@).subrange(0, input.len() as int) == texts(input@));
    proof {
        lemma_keymap_size(texts(input@), fluent_rebinds@);
    }
    keymap
}

} // verus!

//! Tests of validation, name ordering, pattern escaping, and the fixed
//! tables.

use lean4oj::links::friend_links;
use lean4oj::lquery::{escape, escape_lazy, need_escape};
use lean4oj::names::{str_eq_chars, str_lt};
use lean4oj::preference::{Misc, Pagination, PreferenceConfig, Security};
use lean4oj::status::Status;
use lean4oj::validate::{check_uid, check_username, is_lean_id, is_lean_id_first, is_lean_id_rest};

#[test]
fn username_rules() {
    assert!(check_username("abc"));
    assert!(check_username("A#b$c-d.e_9"));
    assert!(!check_username("ab"));
    assert!(!check_username("a".repeat(25).as_str()));
    assert!(!check_username("has space"));
    assert!(!check_username("caf\u{e9}"));
}

#[test]
fn identifier_head_characters() {
    assert!(is_lean_id_first('a'));
    assert!(is_lean_id_first('_'));
    assert!(is_lean_id_first('\u{3b1}')); // alpha
    // Lambda is left out of the Greek range, but the alphabetic check
    // already admits it.
    assert!(is_lean_id_first('\u{3bb}'));
    assert!(is_lean_id_first('\u{2115}')); // double-struck N
    assert!(!is_lean_id_first('1'));
    assert!(!is_lean_id_first('.'));
    assert!(!is_lean_id_first('\u{d7}')); // multiplication sign
}

#[test]
fn identifier_tail_characters() {
    assert!(is_lean_id_rest('9'));
    assert!(is_lean_id_rest('\''));
    assert!(is_lean_id_rest('!'));
    assert!(is_lean_id_rest('?'));
    assert!(is_lean_id_rest('\u{2080}')); // subscript zero
    assert!(!is_lean_id_rest(' '));
}

#[test]
fn whole_identifiers() {
    assert!(is_lean_id("foo_bar'2"));
    assert!(is_lean_id("\u{3b1}\u{3b2}\u{3b3}"));
    assert!(!is_lean_id(""));
    assert!(!is_lean_id("2foo"));
    assert!(!is_lean_id("a.b"));
}

#[test]
fn uid_rules() {
    assert!(check_uid("abc"));
    assert!(check_uid("\u{3b1}\u{3b2}\u{3b3}"));
    assert!(!check_uid("ab"));
    assert!(!check_uid(&"x".repeat(25)));
}

#[test]
fn name_order_is_by_code_point() {
    assert!(str_lt("Alpha", "Beta"));
    assert!(str_lt("Foo", "Foo.bar"));
    assert!(!str_lt("Foo", "Foo"));
    assert!(str_lt("Z", "a")); // upper case sorts first
    assert!(str_eq_chars("same", "same"));
    assert!(!str_eq_chars("same", "samey"));
}

#[test]
fn status_byte_decoding() {
    assert_eq!(Status::try_from(0), Ok(Status::Pending));
    assert_eq!(Status::try_from(9), Ok(Status::Accepted));
    assert_eq!(Status::try_from(11), Ok(Status::Canceled));
    assert_eq!(Status::try_from(12), Err(()));
    assert_eq!(Status::try_from(255), Err(()));
    assert_eq!(Status::Accepted.ordinal(), 9);
}

#[test]
fn status_terminality_and_cancel_window() {
    assert!(Status::Accepted.is_terminal());
    assert!(Status::InvalidImport.is_terminal());
    assert!(!Status::Replaying.is_terminal());
    assert!(Status::Pending.can_cancel());
    assert!(Status::Deposited.can_cancel());
    assert!(!Status::JudgerReceived.can_cancel());
    assert!(!Status::Accepted.can_cancel());
}

#[test]
fn status_transition_graph() {
    assert!(Status::Pending.can_transition(Status::Depositing));
    assert!(Status::Depositing.can_transition(Status::InvalidImport));
    assert!(Status::Replaying.can_transition(Status::WrongAnswer));
    assert!(Status::Accepted.can_transition(Status::Pending)); // rejudge
    assert!(!Status::Pending.can_transition(Status::Accepted));
    assert!(!Status::Accepted.can_transition(Status::WrongAnswer));
    assert!(!Status::JudgerReceived.can_transition(Status::Canceled));
}

#[test]
fn pattern_escaping() {
    assert!(need_escape(b'%'));
    assert!(need_escape(b'\\'));
    assert!(need_escape(b'_'));
    assert!(!need_escape(b'*'));
    assert_eq!(escape("a_b"), b"%a\\_b%");
    assert_eq!(escape("50%"), b"%50\\%%");
}

#[test]
fn lazy_escaping_keeps_user_wildcards() {
    assert_eq!(escape_lazy("**"), None);
    assert_eq!(escape_lazy("*"), None);
    assert_eq!(escape_lazy(""), None);
    assert_eq!(escape_lazy("*ab*").unwrap(), b"%ab%");
    assert_eq!(escape_lazy("a*").unwrap(), b"a%");
    assert_eq!(escape_lazy("a_b").unwrap(), b"a\\_b");
}

#[test]
fn preference_defaults() {
    let p = PreferenceConfig::default();
    assert_eq!(p.site_name, "Lean4OJ");
    assert_eq!(p.pagination.problem_set, 50);
    let q = Pagination::default();
    assert_eq!(q.discussion_replies, 40);
    let s = Security::default();
    assert!(!s.recaptcha_enabled);
    assert!(s.allow_everyone_create_discussion);
    let m = Misc::default();
    assert!(m.redirect_legacy_urls);
    assert_eq!(m.discussion_reaction_emojis.len(), 10);
}

#[test]
fn friend_link_table() {
    let links = friend_links(None);
    assert_eq!(links[0], ("OI Wiki", "https://oi.wiki"));
    assert_eq!(links[13].1, "https://www.bananaspace.org/");
    let en = friend_links(Some("en_US"));
    assert_eq!(en[13].0, "Banana Space");
    assert_eq!(en[16].0, "Lean Online Judge by Ansar");
    let ja = friend_links(Some("ja_JP"));
    assert_eq!(ja[13].0, "\u{30d0}\u{30ca}\u{30ca}\u{30b9}\u{30da}\u{30fc}\u{30b9}");
}

#[test]
fn versioned_prefixes_major_version() {
    assert_eq!(lean4oj::dispatch::versioned(".26.0"), "4.26.0");
}

use git_reader::commit_parse::{parse_parent, parse_tree, CommitOnlyTreeAndParents};
use git_reader::tree_parse::{TreeEntry, TreeMode, TreeObject};

#[test]
fn parse_tree_line_works() {
    // identifiers only take the first 32 hex chars of the hash
    let line = b"tree 0000000000000000000000000000000f00000000\nauthor me <me> 1623986985 -0500";
    let (tree_hash, next_index) = parse_tree(line, true).unwrap();
    assert_eq!(tree_hash, 15);
    assert_eq!(next_index, 46);
}

#[test]
fn tree_and_parent_parsing_works() {
    let line = b"tree 0000000000000000000000000000000100000000\nparent 0000000000000000000000000000000200000000\nparent 0000000000000000000000000000000300000000\nauthor me...";
    let (tree_hash, mut next_index) = parse_tree(line, true).unwrap();
    assert_eq!(tree_hash, 1);
    assert_eq!(next_index, 46);

    let first_parent = parse_parent(line, &mut next_index).unwrap();
    assert_eq!(first_parent, Some(2));
    let second_parent = parse_parent(line, &mut next_index).unwrap();
    assert_eq!(second_parent, Some(3));
    let third_parent = parse_parent(line, &mut next_index).unwrap();
    assert_eq!(third_parent, None);
}

#[test]
fn commit_only_tree_and_parents_parsing_works() {
    let line = b"tree 0000000000000000000000000000000100000000\nparent 0000000000000000000000000000000200000000\nparent 0000000000000000000000000000000300000000\nparent 0000000000000000000000000000000400000000\nauthor me <me> 12321321321 -0000";
    let obj = CommitOnlyTreeAndParents::parse(line).unwrap();
    assert_eq!(obj.tree, 1);
    assert_eq!(obj.parent_one, 2);
    assert_eq!(obj.parent_two, 3);
    assert_eq!(obj.extra_parents.len(), 1);
    assert_eq!(obj.extra_parents[0], 4);
}

#[test]
fn tree_parse_works() {
    let mut oid_full_1 = [0u8; 20];
    oid_full_1[15] = 1;
    let mut oid_full_2 = [0u8; 20];
    oid_full_2[15] = 2;
    let mut tree_vec = b"40000 dir1\0".to_vec();
    tree_vec.extend(&oid_full_1);
    tree_vec.extend(b"100644 somefile\0");
    tree_vec.extend(&oid_full_2);

    let parsed = TreeObject::parse(&tree_vec[..]).unwrap();
    assert_eq!(parsed.entries.len(), 2);
    let first_entry = &parsed.entries[0];
    let second_entry = &parsed.entries[1];
    assert_eq!(first_entry.id, 1);
    assert_eq!(second_entry.id, 2);
    assert_eq!(first_entry.path_component, "dir1");
    assert_eq!(second_entry.path_component, "somefile");
    assert_eq!(first_entry.entry_mode, TreeMode::Directory);
    assert_eq!(second_entry.entry_mode, TreeMode::RegularNonEx);
}

#[test]
fn commit_object_parsing_parse_tree_line_works() {
    let line = b"tree 0000000000000000000000000000000f00000000\nauthor me <me> 1623986985 -0500";
    let (tree_hash, next_index) = parse_tree(line, true).unwrap();
    assert_eq!(tree_hash, 15);
    assert_eq!(next_index, 46);
}

#[test]
fn commit_object_parsing_tree_and_parent_parsing_works() {
    let line = b"tree 0000000000000000000000000000000100000000\nparent 0000000000000000000000000000000200000000\nparent 0000000000000000000000000000000300000000\nauthor me...";
    let (tree_hash, mut next_index) = parse_tree(line, true).unwrap();
    assert_eq!(tree_hash, 1);
    assert_eq!(next_index, 46);

    let first_parent = parse_parent(line, &mut next_index).unwrap();
    assert_eq!(first_parent, Some(2));
    let second_parent = parse_parent(line, &mut next_index).unwrap();
    assert_eq!(second_parent, Some(3));
    let third_parent = parse_parent(line, &mut next_index).unwrap();
    assert_eq!(third_parent, None);
}

#[test]
fn commit_object_parsing_commit_only_tree_and_parents_parsing_works() {
    let line = b"tree 0000000000000000000000000000000100000000\nparent 0000000000000000000000000000000200000000\nparent 0000000000000000000000000000000300000000\nparent 0000000000000000000000000000000400000000\nauthor me <me> 12321321321 -0000";
    let obj = CommitOnlyTreeAndParents::parse(line).unwrap();
    assert_eq!(obj.tree, 1);
    assert_eq!(obj.parent_one, 2);
    assert_eq!(obj.parent_two, 3);
    assert_eq!(obj.extra_parents.len(), 1);
    assert_eq!(obj.extra_parents[0], 4);
}

#[test]
fn tree_object_parsing_tree_parse_works() {
    let mut oid_full_1 = [0u8; 20];
    oid_full_1[15] = 1;
    let mut oid_full_2 = [0u8; 20];
    oid_full_2[15] = 2;
    let mut tree_vec = b"40000 dir1\0".to_vec();
    tree_vec.extend(&oid_full_1);
    tree_vec.extend(b"100644 somefile\0");
    tree_vec.extend(&oid_full_2);

    let parsed = TreeObject::parse(&tree_vec[..]).unwrap();
    assert_eq!(parsed.entries.len(), 2);
    let first_entry = &parsed.entries[0];
    let second_entry = &parsed.entries[1];
    assert_eq!(first_entry.id, 1);
    assert_eq!(second_entry.id, 2);
    assert_eq!(first_entry.path_component, "dir1");
    assert_eq!(second_entry.path_component, "somefile");
    assert_eq!(first_entry.entry_mode, TreeMode::Directory);
    assert_eq!(second_entry.entry_mode, TreeMode::RegularNonEx);
}

#[test]
fn tree_object_parsing_size_test() {
    let size = std::mem::size_of::<TreeMode>();
    assert_eq!(size, 1);
    let size = std::mem::size_of::<TreeEntry>();
    assert_eq!(size, 48);
    let size = std::mem::size_of::<TreeObject>();
    assert_eq!(size, 24);
}

#[test]
fn size_test() {
    let size = std::mem::size_of::<TreeMode>();
    assert_eq!(size, 1);
    let size = std::mem::size_of::<TreeEntry>();
    assert_eq!(size, 48);
    let size = std::mem::size_of::<TreeObject>();
    assert_eq!(size, 24);
}

#[test]
fn full_commit_parsing_works() {
    let raw = b"tree 0000000000000000000000000000000100000000\nparent 0000000000000000000000000000000200000000\nauthor An Author <a@example.com> 1623986985 -0500\ncommitter A Committer <c@example.com> 1623986985 -0500\n\nthe summary line\n\nmore detail\n\n";
    let c = git_reader::commit_parse::CommitFull::parse(raw).unwrap();
    assert_eq!(c.tree, 1);
    assert_eq!(c.parent_one, 2);
    assert_eq!(c.parent_two, 0);
    assert!(c.extra_parents.is_empty());
    assert_eq!(c.author, "An Author <a@example.com> 1623986985 -0500");
    assert_eq!(c.committer, "A Committer <c@example.com> 1623986985 -0500");
    assert_eq!(c.message, "the summary line\n\nmore detail");
}

#[test]
fn full_commit_first_line_message_works() {
    let raw = b"tree 0000000000000000000000000000000100000000\nauthor me <m@e> 1 -0500\ncommitter me <m@e> 1 -0500\n\nsummary only\nrest is ignored\n";
    let c = git_reader::commit_parse::CommitFullOnlyMessage::parse(raw).unwrap();
    assert_eq!(c.tree, 1);
    assert_eq!(c.message, "summary only");

    let c2 = git_reader::commit_parse::CommitOnlyMessageNoAuthorOrCommitter::parse(raw).unwrap();
    assert_eq!(c2.tree, 1);
    assert_eq!(c2.message, "summary only");
}

#[test]
fn commit_message_and_description_split_works() {
    let raw = b"tree 0000000000000000000000000000000100000000\nauthor me <m@e> 1 -0500\ncommitter me <m@e> 1 -0500\n\nsummary\n\ndescription here\n";
    let c = git_reader::commit_parse::CommitFullMessageAndDescription::parse(raw).unwrap();
    assert_eq!(c.message, "summary");
    assert_eq!(c.description, "\ndescription here");
}

#[test]
fn commit_with_mergetag_parses() {
    // a mergetag block sits between the committer line and the blank
    // line; parsing skips it and still finds the message
    let raw = b"tree 0000000000000000000000000000000100000000
author me <m@e> 1 -0500
committer me <m@e> 1 -0500
mergetag object 0000000000000000000000000000000200000000
 type commit
 tag v1

the message
";
    let c = git_reader::commit_parse::CommitFull::parse(raw).unwrap();
    assert_eq!(c.tree, 1);
    assert_eq!(c.committer, "me <m@e> 1 -0500");
    assert_eq!(c.message, "the message");
}

#[test]
fn mergetag_skip_requires_introducer() {
    let raw = b"tree 0000000000000000000000000000000100000000
author me <m@e> 1 -0500
committer me <m@e> 1 -0500
not a mergetag

x";
    assert!(git_reader::commit_parse::CommitFull::parse(raw).is_err());
}

#[test]
fn malformed_commit_is_rejected() {
    // a broken tree line
    assert!(git_reader::commit_parse::CommitOnlyTreeAndParents::parse(b"txee junk").is_err());
    // a parent line with bad hex
    let raw = b"tree 0000000000000000000000000000000100000000\nparent zzzz000000000000000000000000000000000000\nauthor me...";
    assert!(git_reader::commit_parse::CommitOnlyTreeAndParents::parse(raw).is_err());
}

#[test]
fn unknown_tree_mode_is_rejected() {
    let mut tree_vec = b"777777 oops\0".to_vec();
    tree_vec.extend(&[0u8; 20]);
    assert!(TreeObject::parse(&tree_vec[..]).is_err());
}

#[test]
fn tree_mode_try_from_works() {
    assert_eq!(TreeMode::try_from(b"40000").unwrap(), TreeMode::Directory);
    assert_eq!(TreeMode::try_from(b"100640").unwrap(), TreeMode::RegularNonEx);
    assert_eq!(TreeMode::try_from(b"160000").unwrap(), TreeMode::GitLink);
    assert!(TreeMode::try_from(b"100600").is_err());
}

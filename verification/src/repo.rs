//! A repository, as far as the changeset core needs to know it.

use crate::bonsai::BonsaiChangeset;
use crate::case_conflict::{case_start, CaseConflictCheck, CaseStep};
use crate::derive::{initial_derivation, Action, Derivation};
use crate::errors::{ErrorKind, ErrorKindView};
use crate::filenodes::{FilenodeInfo, FilenodeResult, RepoPath};
use crate::ids::{
    hex_digit, hex_digit_str, hex_of, lemma_hex_digit_injective, lemma_hex_injective, lemma_hex_len,
    push_hex, ChangesetId, HgChangesetId, HgFileNodeId, HgManifestId, RepositoryId,
};
use crate::lease::{LeaseAttempt, LeasePhase, INITIAL_BACKOFF_MS};
use crate::manifest::{
    changes_view, first_parent, manifest_lookups, paths_to_look_up, second_parent, ManifestLookups,
};
use crate::mapping::{lookup_start, BonsaiOrHgChangesetIds, HgBonsaiMappingLookup, LookupStep};
use crate::path::{paths_view, MPath};
use vstd::prelude::*;

verus! {

/// The decimal digits of `n`, the most significant first.
pub open spec fn decimal_digits(n: nat) -> Seq<char>
    decreases n,
{
    if n < 10 {
        seq![hex_digit(n as u8)]
    } else {
        decimal_digits(n / 10).push(hex_digit((n % 10) as u8))
    }
}

/// The decimal text of `i`, with a minus sign where `i` is negative.
pub open spec fn decimal_of(i: int) -> Seq<char> {
    if i < 0 {
        seq!['-'] + decimal_digits((-i) as nat)
    } else {
        decimal_digits(i as nat)
    }
}

/// The text before the number of the repository in a lease key.
pub open spec fn key_prefix() -> Seq<char> {
    seq!['r', 'e', 'p', 'o', 'i', 'd', '.']
}

/// The text between the number of the repository and the changeset in a
/// lease key.
pub open spec fn key_infix() -> Seq<char> {
    seq!['.', 'h', 'g', '-', 'c', 'h', 'a', 'n', 'g', 'e', 's', 'e', 't', '.']
}

/// The key of the lease that guards the derivation of `bcs_id` in the
/// repository `repoid`.
pub open spec fn lease_key(repoid: RepositoryId, bcs_id: ChangesetId) -> Seq<char> {
    key_prefix() + decimal_of(repoid.0 as int) + key_infix() + hex_of(bcs_id.0@)
}

proof fn lemma_decimal_digits(n: nat)
    ensures
        decimal_digits(n).len() >= 1,
        n >= 10 ==> decimal_digits(n).len() >= 2,
        forall|i: int| 0 <= i < decimal_digits(n).len() ==> decimal_digits(n)[i] != '-',
    decreases n,
{
    if n >= 10 {
        lemma_decimal_digits(n / 10);
    }
}

proof fn lemma_decimal_digits_injective(a: nat, b: nat)
    requires
        decimal_digits(a) == decimal_digits(b),
    ensures
        a == b,
    decreases a,
{
    lemma_decimal_digits(a);
    lemma_decimal_digits(b);
    if a < 10 {
        assert(decimal_digits(a).len() == 1);
        assert(b < 10);
        assert(decimal_digits(a)[0] == hex_digit(a as u8));
        assert(decimal_digits(b)[0] == hex_digit(b as u8));
        lemma_hex_digit_injective(a as u8, b as u8);
    } else {
        assert(b >= 10) by {
            if b < 10 {
                assert(decimal_digits(b).len() == 1);
            }
        }
        let da = decimal_digits(a / 10);
        let db = decimal_digits(b / 10);
        let xa = da.push(hex_digit((a % 10) as u8));
        let xb = db.push(hex_digit((b % 10) as u8));
        assert(xa == xb);
        assert(xa.last() == hex_digit((a % 10) as u8));
        assert(xb.last() == hex_digit((b % 10) as u8));
        lemma_hex_digit_injective((a % 10) as u8, (b % 10) as u8);
        assert(da =~= xa.drop_last());
        assert(db =~= xb.drop_last());
        lemma_decimal_digits_injective(a / 10, b / 10);
    }
}

proof fn lemma_decimal_injective(i: int, j: int)
    requires
        decimal_of(i) == decimal_of(j),
    ensures
        i == j,
{
    if i < 0 {
        lemma_decimal_digits((-i) as nat);
        let di = seq!['-'] + decimal_digits((-i) as nat);
        assert(di[0] == '-');
        if j < 0 {
            let dj = seq!['-'] + decimal_digits((-j) as nat);
            assert(decimal_digits((-i) as nat) =~= di.subrange(1, di.len() as int));
            assert(decimal_digits((-j) as nat) =~= dj.subrange(1, dj.len() as int));
            lemma_decimal_digits_injective((-i) as nat, (-j) as nat);
        } else {
            lemma_decimal_digits(j as nat);
            assert(decimal_digits(j as nat)[0] != '-');
        }
    } else {
        lemma_decimal_digits(i as nat);
        if j < 0 {
            let dj = seq!['-'] + decimal_digits((-j) as nat);
            assert(dj[0] == '-');
            assert(decimal_digits(i as nat)[0] != '-');
        } else {
            lemma_decimal_digits_injective(i as nat, j as nat);
        }
    }
}

/// Two leases have the same key only if they guard the same changeset of
/// the same repository.
pub proof fn lemma_lease_key_injective(
    repo_a: RepositoryId,
    id_a: ChangesetId,
    repo_b: RepositoryId,
    id_b: ChangesetId,
)
    requires
        lease_key(repo_a, id_a) == lease_key(repo_b, id_b),
    ensures
        repo_a == repo_b,
        id_a == id_b,
{
    let da = decimal_of(repo_a.0 as int);
    let db = decimal_of(repo_b.0 as int);
    let ha = hex_of(id_a.0@);
    let hb = hex_of(id_b.0@);
    let ka = lease_key(repo_a, id_a);
    let kb = lease_key(repo_b, id_b);
    lemma_hex_len(id_a.0@);
    lemma_hex_len(id_b.0@);
    assert(ha.len() == 64 && hb.len() == 64);
    assert(ka.len() == 7 + da.len() + 14 + 64);
    assert(kb.len() == 7 + db.len() + 14 + 64);
    assert(da.len() == db.len());
    assert(da =~= ka.subrange(7, 7 + da.len() as int));
    assert(db =~= kb.subrange(7, 7 + db.len() as int));
    assert(ha =~= ka.subrange(ka.len() - 64, ka.len() as int));
    assert(hb =~= kb.subrange(kb.len() - 64, kb.len() as int));
    lemma_decimal_injective(repo_a.0 as int, repo_b.0 as int);
    lemma_hex_injective(id_a.0@, id_b.0@);
    assert(id_a.0 =~= id_b.0);
}

fn push_decimal(out: &mut String, n: u64)
    ensures
        final(out)@ == old(out)@ + decimal_digits(n as nat),
    decreases n,
{
    if n >= 10 {
        push_decimal(out, n / 10);
    }
    let ghost before = out@;
    out.append(hex_digit_str((n % 10) as u8));
    proof {
        if n >= 10 {
            assert(out@ =~= old(out)@ + decimal_digits(n as nat));
        } else {
            assert(out@ =~= old(out)@ + decimal_digits(n as nat));
        }
    }
}

/// What the changeset core knows of a repository: its number among the
/// repositories that share the stores, and its name.
#[derive(Clone, Debug)]
pub struct BlobRepo {
    repoid: RepositoryId,
    reponame: String,
}

impl BlobRepo {
    /// The repository with the number `repoid` and the name `reponame`.
    pub fn new(repoid: RepositoryId, reponame: String) -> (r: Self)
        ensures
            r.spec_repoid() == repoid,
            r.spec_name() == reponame@,
    {
        BlobRepo { repoid, reponame }
    }

    /// The number of the repository.
    pub closed spec fn spec_repoid(&self) -> RepositoryId {
        self.repoid
    }

    /// The name of the repository.
    pub closed spec fn spec_name(&self) -> Seq<char> {
        self.reponame@
    }

    /// The number of the repository.
    pub fn get_repoid(&self) -> (r: RepositoryId)
        ensures
            r == self.spec_repoid(),
    {
        self.repoid
    }

    /// The name of the repository.
    pub fn name(&self) -> (r: &String)
        ensures
            r@ == self.spec_name(),
    {
        &self.reponame
    }

    /// The key of the lease that guards the derivation of `bcs_id` in this
    /// repository.
    pub fn generate_lease_key(&self, bcs_id: &ChangesetId) -> (r: String)
        ensures
            r@ == lease_key(self.spec_repoid(), *bcs_id),
    {
        proof {
            reveal_strlit("repoid.");
            reveal_strlit(".hg-changeset.");
            reveal_strlit("-");
        }
        let mut out = String::new();
        out.append("repoid.");
        assert(out@ =~= key_prefix());
        let id = self.repoid.0;
        if id < 0 {
            out.append("-");
            let magnitude: u64 = (-(id as i64)) as u64;
            push_decimal(&mut out, magnitude);
            assert(out@ =~= key_prefix() + decimal_of(id as int));
        } else {
            push_decimal(&mut out, id as u64);
            assert(out@ =~= key_prefix() + decimal_of(id as int));
        }
        out.append(".hg-changeset.");
        assert(out@ =~= key_prefix() + decimal_of(id as int) + key_infix());
        push_hex(&mut out, bcs_id.0.as_slice());
        out
    }

    /// An attempt to take the lease for the derivation of `bcs_id`.
    pub fn take_hg_generation_lease(&self, bcs_id: ChangesetId) -> (r: LeaseAttempt)
        ensures
            r == (LeaseAttempt {
                bcs_id,
                backoff_ms: INITIAL_BACKOFF_MS,
                phase: LeasePhase::Acquiring,
            }),
    {
        LeaseAttempt::new(bcs_id)
    }

    /// The derivation of the tree-manifest form of `bcs_id`, and its first
    /// question. It ends with the identifier of that form and the number of
    /// changesets that it generated on the way.
    pub fn get_hg_from_bonsai_changeset_with_impl(&self, bcs_id: ChangesetId) -> (r: (
        Derivation,
        Action,
    ))
        ensures
            (r.0@, r.1@) == initial_derivation(bcs_id),
    {
        Derivation::new(bcs_id)
    }

    /// The derivation of the tree-manifest form of `bcs_id`, and its first
    /// question.
    pub fn get_hg_from_bonsai_changeset(&self, bcs_id: ChangesetId) -> (r: (Derivation, Action))
        ensures
            (r.0@, r.1@) == initial_derivation(bcs_id),
    {
        Derivation::new(bcs_id)
    }

    /// The first step of checking whether adding `path` to the manifest
    /// `parent_mf_id` collides by case with a path that the manifest
    /// `child_mf_id` still holds.
    pub fn check_case_conflict_in_manifest(
        &self,
        parent_mf_id: HgManifestId,
        child_mf_id: HgManifestId,
        path: MPath,
    ) -> (r: CaseStep)
        ensures
            r@ == case_start(parent_mf_id, child_mf_id, path@),
    {
        CaseConflictCheck::new(parent_mf_id, child_mf_id, path)
    }

    /// What has to be looked up in the manifests of the parents before the
    /// manifest of `bcs` can be derived.
    pub fn get_manifest_from_bonsai(
        &self,
        bcs: &BonsaiChangeset,
        parent_manifests: &Vec<HgManifestId>,
    ) -> (r: ManifestLookups)
        ensures
            r.manifest_p1 == (if parent_manifests@.len() > 0 {
                Some(parent_manifests@[0])
            } else {
                None
            }),
            r.manifest_p2 == (if parent_manifests@.len() > 1 {
                Some(parent_manifests@[1])
            } else {
                None
            }),
            paths_view(r.p1_paths@) == paths_to_look_up(
                changes_view(bcs.file_changes@),
                first_parent(bcs.parents@),
                second_parent(bcs.parents@),
            ),
            paths_view(r.p2_paths@) == paths_view(r.p1_paths@),
    {
        manifest_lookups(bcs, parent_manifests)
    }

    /// The first step of looking up the pairs of `ids`.
    pub fn get_hg_bonsai_mapping(&self, ids: BonsaiOrHgChangesetIds) -> (r: LookupStep)
        ensures
            r@ == lookup_start(ids@),
    {
        HgBonsaiMappingLookup::new(ids)
    }
}

/// What the index holds of a changeset.
#[derive(Clone, Debug, PartialEq, Eq)]
pub struct ChangesetEntry {
    pub repo_id: RepositoryId,
    pub cs_id: ChangesetId,
    pub parents: Vec<ChangesetId>,
    /// The generation of the changeset: one more than the highest
    /// generation among its parents.
    pub gen: u64,
}

/// The generation number of a changeset.
#[derive(Clone, Copy, Debug, PartialEq, Eq, Structural, Hash)]
pub struct Generation(pub u64);

impl BlobRepo {
    /// The changeset of the content-addressed graph that the mapping gave
    /// for `changesetid`, or the error that it gave none.
    pub fn get_bonsai_or_fail(&self, changesetid: HgChangesetId, maybe_bonsai: Option<ChangesetId>) -> (r:
        Result<ChangesetId, ErrorKind>)
        ensures
            r == (match maybe_bonsai {
                Some(bonsai) => Ok::<ChangesetId, ErrorKind>(bonsai),
                None => Err(ErrorKind::BonsaiMappingNotFound(changesetid)),
            }),
    {
        match maybe_bonsai {
            Some(bonsai) => Ok(bonsai),
            None => Err(ErrorKind::BonsaiMappingNotFound(changesetid)),
        }
    }

    /// What the index gave for `bonsai`, or the error that it gave nothing.
    pub fn get_bonsai_cs_entry_or_fail(&self, bonsai: ChangesetId, maybe_entry: Option<ChangesetEntry>) -> (r:
        Result<ChangesetEntry, ErrorKind>)
        ensures
            r == (match maybe_entry {
                Some(entry) => Ok::<ChangesetEntry, ErrorKind>(entry),
                None => Err(ErrorKind::BonsaiNotFound(bonsai)),
            }),
    {
        match maybe_entry {
            Some(entry) => Ok(entry),
            None => Err(ErrorKind::BonsaiNotFound(bonsai)),
        }
    }

    /// Whether the changeset exists, given what the index holds of it.
    pub fn changeset_exists_by_bonsai(&self, entry: Option<&ChangesetEntry>) -> (r: bool)
        ensures
            r == entry is Some,
    {
        entry.is_some()
    }

    /// The parents of `changesetid`, given what the index holds of it.
    pub fn get_changeset_parents_by_bonsai(
        &self,
        changesetid: ChangesetId,
        maybe_entry: Option<ChangesetEntry>,
    ) -> (r: Result<Vec<ChangesetId>, ErrorKind>)
        ensures
            r == (match maybe_entry {
                Some(entry) => Ok::<Vec<ChangesetId>, ErrorKind>(entry.parents),
                None => Err(ErrorKind::BonsaiNotFound(changesetid)),
            }),
    {
        match maybe_entry {
            Some(entry) => Ok(entry.parents),
            None => Err(ErrorKind::BonsaiNotFound(changesetid)),
        }
    }

    /// The generation number of a changeset, given what the index holds of
    /// it; `None` where the changeset does not exist.
    pub fn get_generation_number(&self, entry: Option<&ChangesetEntry>) -> (r: Option<Generation>)
        ensures
            r == (match entry {
                Some(e) => Some(Generation(e.gen)),
                None => None,
            }),
    {
        match entry {
            Some(e) => Some(Generation(e.gen)),
            None => None,
        }
    }

    /// The record of `node` at `path`, given the answer of the store of
    /// file-node records: a record that the store lacks is an error, a
    /// store that is switched off is none.
    pub fn get_filenode(
        &self,
        path: &RepoPath,
        node: HgFileNodeId,
        answer: FilenodeResult<Option<FilenodeInfo>>,
    ) -> (r: Result<FilenodeResult<FilenodeInfo>, ErrorKind>)
        ensures
            match answer {
                FilenodeResult::Present(Some(info)) => r == Ok::<_, ErrorKind>(
                    FilenodeResult::Present(info),
                ),
                FilenodeResult::Present(None) => r matches Err(e) && e@
                    == ErrorKindView::MissingFilenode(path@, node),
                FilenodeResult::Disabled => r == Ok::<_, ErrorKind>(
                    FilenodeResult::<FilenodeInfo>::Disabled,
                ),
            },
    {
        match answer {
            FilenodeResult::Present(Some(info)) => Ok(FilenodeResult::Present(info)),
            FilenodeResult::Present(None) => Err(ErrorKind::MissingFilenode(path.duplicate(), node)),
            FilenodeResult::Disabled => Ok(FilenodeResult::Disabled),
        }
    }

    /// The changeset that introduced a file node, given the answer of the
    /// store of file-node records about the node.
    pub fn get_linknode_opt(&self, answer: FilenodeResult<Option<FilenodeInfo>>) -> (r: FilenodeResult<
        Option<HgChangesetId>,
    >)
        ensures
            r == (match answer {
                FilenodeResult::Present(Some(info)) => FilenodeResult::Present(Some(info.linknode)),
                FilenodeResult::Present(None) => FilenodeResult::Present(None),
                FilenodeResult::Disabled => FilenodeResult::Disabled,
            }),
    {
        match answer {
            FilenodeResult::Present(Some(info)) => FilenodeResult::Present(Some(info.linknode)),
            FilenodeResult::Present(None) => FilenodeResult::Present(None),
            FilenodeResult::Disabled => FilenodeResult::Disabled,
        }
    }

    /// The changeset that introduced the file node of a record.
    pub fn get_linknode(&self, answer: FilenodeResult<FilenodeInfo>) -> (r: FilenodeResult<
        HgChangesetId,
    >)
        ensures
            r == (match answer {
                FilenodeResult::Present(info) => FilenodeResult::Present(info.linknode),
                FilenodeResult::Disabled => FilenodeResult::Disabled,
            }),
    {
        match answer {
            FilenodeResult::Present(info) => FilenodeResult::Present(info.linknode),
            FilenodeResult::Disabled => FilenodeResult::Disabled,
        }
    }

    /// The record of the file node `node` at `path`, made from what its
    /// envelope holds: the parents and the copy source, which is a file.
    pub fn get_filenode_from_envelope(
        &self,
        path: RepoPath,
        node: HgFileNodeId,
        linknode: HgChangesetId,
        p1: Option<HgFileNodeId>,
        p2: Option<HgFileNodeId>,
        copy_info: Option<(MPath, HgFileNodeId)>,
    ) -> (r: FilenodeInfo)
        ensures
            r == (FilenodeInfo {
                path,
                filenode: node,
                p1,
                p2,
                copyfrom: match copy_info {
                    Some((source, from)) => Some((RepoPath::FilePath(source), from)),
                    None => None,
                },
                linknode,
            }),
    {
        let copyfrom = match copy_info {
            Some((source, from)) => Some((RepoPath::FilePath(source), from)),
            None => None,
        };
        FilenodeInfo { path, filenode: node, p1, p2, copyfrom, linknode }
    }
}

} // verus!

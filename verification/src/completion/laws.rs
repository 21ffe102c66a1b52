//! What a completion contract promises of the criteria that it declares.

use vstd::prelude::*;
use crate::completion::{
    criteria_from, criterion_of, evaluation_for, evaluation_of, framed_from, inputs_digest, load_of,
    missing_from, paths_fault_from, placed_from, receipt_key, results_from, status_of,
    terminated_from, CargoCommandModel, CompletionContractModel, ContractLoadModel, CriterionModel,
    CriterionResultModel, CriterionStatus, EntryKind, EvidenceModel, GateErrorModel, GateStatus,
    InputCollectionModel, InputFileModel, ReceiptModel, WireContractModel, WireCriterionModel,
};
use crate::digest;
use crate::path::{self, Platform};
use crate::text;

verus! {

broadcast use vstd::string::group_string_axioms;

/// The declared digest of a file is met exactly where the path is a file and the bytes that it
/// holds have that digest, and the criterion has failed where the file is there and has another.
pub proof fn digests_of_files_decide(
    id: Seq<char>,
    path: Seq<char>,
    sha256: Seq<char>,
    contract_digest: Seq<char>,
    is_file: Result<Option<bool>, GateErrorModel>,
    content: Result<Seq<u8>, GateErrorModel>,
)
    ensures
        ({
            let status = status_of(
                CriterionModel::FileSha256 { id, path, sha256 },
                contract_digest,
                EvidenceModel::File { is_file, content },
            );
            &&& (status == Ok::<CriterionStatus, GateErrorModel>(CriterionStatus::Satisfied)) == (
            is_file == Ok::<Option<bool>, GateErrorModel>(Some(true)) && content is Ok
                && digest::sha256_hex(content->Ok_0) == sha256)
            &&& is_file == Ok::<Option<bool>, GateErrorModel>(Some(true)) && content is Ok
                && digest::sha256_hex(content->Ok_0) != sha256 ==> status == Ok::<
                CriterionStatus,
                GateErrorModel,
            >(CriterionStatus::Failed)
            &&& is_file is Ok && is_file->Ok_0 != Some(true) ==> status == Ok::<
                CriterionStatus,
                GateErrorModel,
            >(CriterionStatus::Failed)
            &&& is_file is Err ==> status is Err
        }),
{
}

/// A file that has to exist is there exactly where the path is a file; a path that has to be
/// absent is so exactly where nothing is there.
pub proof fn presence_decides(
    id: Seq<char>,
    path: Seq<char>,
    contract_digest: Seq<char>,
    is_file: Option<bool>,
    content: Result<Seq<u8>, GateErrorModel>,
    present: bool,
)
    ensures
        status_of(
            CriterionModel::FileExists { id, path },
            contract_digest,
            EvidenceModel::File { is_file: Ok(is_file), content },
        ) == Ok::<CriterionStatus, GateErrorModel>(
            if is_file == Some(true) {
                CriterionStatus::Satisfied
            } else {
                CriterionStatus::Failed
            },
        ),
        status_of(
            CriterionModel::FileAbsent { id, path },
            contract_digest,
            EvidenceModel::Presence(Ok(present)),
        ) == Ok::<CriterionStatus, GateErrorModel>(
            if present {
                CriterionStatus::Failed
            } else {
                CriterionStatus::Satisfied
            },
        ),
{
}

/// A command has a receipt exactly where one is kept for this contract, this criterion and this
/// command; it counts while the inputs have the digest that they had, is stale when they have
/// another, and without such a receipt the command is missing.
pub proof fn receipts_decide(
    id: Seq<char>,
    command: CargoCommandModel,
    input_paths: Seq<Seq<char>>,
    contract_digest: Seq<char>,
    receipt: Option<ReceiptModel>,
    inputs: Seq<char>,
)
    ensures
        ({
            let status = status_of(
                CriterionModel::CommandReceipt {
                    id,
                    program: command.program,
                    args: command.args,
                    input_paths,
                },
                contract_digest,
                EvidenceModel::Receipt { receipt: Ok(receipt), inputs: Ok(inputs) },
            );
            let apt = receipt == Some(
                ReceiptModel {
                    contract_digest,
                    criterion_id: id,
                    program: command.program,
                    args: command.args,
                    input_digest: receipt->0.input_digest,
                },
            );
            status == Ok::<CriterionStatus, GateErrorModel>(
                if !apt {
                    CriterionStatus::Missing
                } else if receipt->0.input_digest == inputs {
                    CriterionStatus::Satisfied
                } else {
                    CriterionStatus::Stale
                },
            )
        }),
{
}

/// What is evident of each criterion.
pub open spec fn status_at(
    contract: CompletionContractModel,
    evidence: Seq<EvidenceModel>,
    k: int,
) -> Result<CriterionStatus, GateErrorModel> {
    status_of(contract.criteria[k], contract.digest, evidence[k])
}

pub open spec fn result_at(
    contract: CompletionContractModel,
    evidence: Seq<EvidenceModel>,
    k: int,
) -> CriterionResultModel {
    CriterionResultModel {
        id: contract.criteria[k].id(),
        status: status_at(contract, evidence, k)->Ok_0,
    }
}

pub open spec fn in_order(results: Seq<CriterionResultModel>) -> bool {
    forall|i: int, j: int|
        0 <= i < j < results.len() ==> !text::before(
            (#[trigger] results[j]).id,
            (#[trigger] results[i]).id,
        )
}

proof fn placed_keeps(results: Seq<CriterionResultModel>, result: CriterionResultModel, i: int)
    requires
        0 <= i <= results.len(),
        in_order(results),
        forall|k: int| 0 <= k < i ==> !text::before(result.id, (#[trigger] results[k]).id),
    ensures
        ({
            let placed = placed_from(results, result, i);
            &&& placed.len() == results.len() + 1
            &&& in_order(placed)
            &&& forall|r: CriterionResultModel|
                #![trigger placed.contains(r)]
                placed.contains(r) <==> results.contains(r) || r == result
        }),
    decreases results.len() - i,
{
    let placed = placed_from(results, result, i);
    if i >= results.len() || text::before(result.id, results[i].id) {
        let at = if i >= results.len() {
            results.len() as int
        } else {
            i
        };
        assert(placed =~= results.insert(at, result));
        assert forall|r: CriterionResultModel| results.contains(r) || r == result implies
            #[trigger] placed.contains(r) by {
            if results.contains(r) {
                let k = results.index_of(r);
                if k < at {
                    assert(placed[k] == r);
                } else {
                    assert(placed[k + 1] == r);
                }
            } else {
                assert(placed[at] == r);
            }
        }
        assert forall|r: CriterionResultModel| #[trigger] placed.contains(r) implies results.contains(
            r,
        ) || r == result by {
            let k = placed.index_of(r);
            if k < at {
                assert(results[k] == r);
            } else if k > at {
                assert(results[k - 1] == r);
            }
        }
        assert forall|a: int, b: int| 0 <= a < b < placed.len() implies !text::before(
            (#[trigger] placed[b]).id,
            (#[trigger] placed[a]).id,
        ) by {
            if a == at {
                assert(placed[b] == results[b - 1]);
                text::three_are_ordered(result.id, results[at].id, results[b - 1].id);
                text::before_is_total(result.id, results[b - 1].id);
                text::before_is_total(result.id, results[at].id);
                text::before_is_total(results[at].id, results[b - 1].id);
                if b - 1 > at {
                    assert(!text::before(results[b - 1].id, results[at].id));
                }
            } else if b == at {
                assert(placed[a] == results[a]);
            } else {
                let c = if a < at {
                    a
                } else {
                    a - 1
                };
                let d = if b < at {
                    b
                } else {
                    b - 1
                };
                assert(placed[a] == results[c]);
                assert(placed[b] == results[d]);
            }
        }
    } else {
        placed_keeps(results, result, i + 1);
    }
}

proof fn results_are_those_from(
    contract: CompletionContractModel,
    evidence: Seq<EvidenceModel>,
    i: int,
    results: Seq<CriterionResultModel>,
)
    requires
        0 <= i <= contract.criteria.len(),
        forall|k: int|
            0 <= k < contract.criteria.len() ==> #[trigger] status_at(contract, evidence, k) is Ok,
        results.len() == i,
        in_order(results),
        forall|r: CriterionResultModel|
            #![trigger results.contains(r)]
            results.contains(r) <==> exists|k: int|
                0 <= k < i && r == #[trigger] result_at(contract, evidence, k),
    ensures
        results_from(contract.criteria, contract.digest, evidence, i, results) matches Ok(all) && {
            &&& all.len() == contract.criteria.len()
            &&& in_order(all)
            &&& forall|r: CriterionResultModel|
                #![trigger all.contains(r)]
                all.contains(r) <==> exists|k: int|
                    0 <= k < contract.criteria.len() && r == #[trigger] result_at(
                        contract,
                        evidence,
                        k,
                    )
        },
    decreases contract.criteria.len() - i,
{
    if i < contract.criteria.len() {
        assert(status_at(contract, evidence, i) is Ok);
        let result = result_at(contract, evidence, i);
        placed_keeps(results, result, 0);
        let next = placed_from(results, result, 0);
        assert forall|r: CriterionResultModel| #![trigger next.contains(r)] next.contains(r)
            <==> exists|k: int|
            0 <= k < i + 1 && r == #[trigger] result_at(contract, evidence, k) by {
            if results.contains(r) {
                let k = choose|k: int|
                    0 <= k < i && r == #[trigger] result_at(contract, evidence, k);
                assert(r == result_at(contract, evidence, k));
            }
            if exists|k: int| 0 <= k < i + 1 && r == #[trigger] result_at(contract, evidence, k) {
                let k = choose|k: int|
                    0 <= k < i + 1 && r == #[trigger] result_at(contract, evidence, k);
                if k < i {
                    assert(results.contains(r));
                }
            }
        }
        results_are_those_from(contract, evidence, i + 1, next);
    }
}

proof fn missing_are_named(results: Seq<CriterionResultModel>, i: int)
    requires
        0 <= i,
    ensures
        forall|id: Seq<char>|
            #![trigger missing_from(results, i).contains(id)]
            missing_from(results, i).contains(id) <==> exists|k: int|
                i <= k < results.len() && (#[trigger] results[k]).id == id && results[k].status
                    != CriterionStatus::Satisfied,
    decreases results.len() - i,
{
    if i < results.len() {
        missing_are_named(results, i + 1);
        let rest = missing_from(results, i + 1);
        let all = missing_from(results, i);
        assert forall|id: Seq<char>| #![trigger all.contains(id)] all.contains(id) <==> exists|
            k: int,
        |
            i <= k < results.len() && (#[trigger] results[k]).id == id && results[k].status
                != CriterionStatus::Satisfied by {
            if results[i].status != CriterionStatus::Satisfied {
                assert(all == seq![results[i].id] + rest);
                if all.contains(id) {
                    let k = all.index_of(id);
                    if k > 0 {
                        assert(rest[k - 1] == id);
                        assert(rest.contains(id));
                    }
                }
                if rest.contains(id) {
                    let k = rest.index_of(id);
                    assert(all[k + 1] == id);
                }
                assert(all[0] == results[i].id);
            }
            if rest.contains(id) {
                let k = choose|k: int|
                    i + 1 <= k < results.len() && (#[trigger] results[k]).id == id
                        && results[k].status != CriterionStatus::Satisfied;
                assert(results[k].id == id);
            }
        }
    }
}

/// Where something is evident of every criterion, each of them is in the evaluation with what
/// is evident of it, in the order of their names; those that are not satisfied are named, and
/// the contract passes where there is none of them and blocks otherwise.
pub proof fn criteria_are_reported(contract: CompletionContractModel, evidence: Seq<EvidenceModel>)
    requires
        forall|k: int|
            0 <= k < contract.criteria.len() ==> #[trigger] status_at(contract, evidence, k) is Ok,
    ensures
        ({
            let evaluation = evaluation_for(Ok(ContractLoadModel::Active(contract)), evidence);
            &&& evaluation.criteria.len() == contract.criteria.len()
            &&& in_order(evaluation.criteria)
            &&& forall|k: int|
                0 <= k < contract.criteria.len() ==> evaluation.criteria.contains(
                    #[trigger] result_at(contract, evidence, k),
                )
            &&& forall|k: int|
                0 <= k < contract.criteria.len() && #[trigger] status_at(contract, evidence, k)
                    != Ok::<CriterionStatus, GateErrorModel>(CriterionStatus::Satisfied) ==> {
                    &&& evaluation.status == GateStatus::Block
                    &&& evaluation.missing_ids.contains(contract.criteria[k].id())
                }
            &&& forall|id: Seq<char>| #[trigger]
                evaluation.missing_ids.contains(id) ==> exists|k: int|
                    0 <= k < contract.criteria.len() && contract.criteria[k].id() == id
                        && #[trigger] status_at(contract, evidence, k) != Ok::<
                        CriterionStatus,
                        GateErrorModel,
                    >(CriterionStatus::Satisfied)
            &&& evaluation.missing_ids.len() == 0 ==> evaluation.status == GateStatus::Pass
        }),
{
    assert forall|r: CriterionResultModel| #[trigger]
        Seq::<CriterionResultModel>::empty().contains(r) <==> exists|k: int|
        0 <= k < 0 && r == #[trigger] result_at(contract, evidence, k) by {}
    results_are_those_from(contract, evidence, 0, seq![]);
    let results = results_from(contract.criteria, contract.digest, evidence, 0, seq![])->Ok_0;
    missing_are_named(results, 0);
    let evaluation = evaluation_for(Ok(ContractLoadModel::Active(contract)), evidence);
    assert(evaluation == evaluation_of(results));
    assert forall|k: int|
        0 <= k < contract.criteria.len() && #[trigger] status_at(contract, evidence, k) != Ok::<
            CriterionStatus,
            GateErrorModel,
        >(CriterionStatus::Satisfied) implies {
        &&& evaluation.status == GateStatus::Block
        &&& evaluation.missing_ids.contains(contract.criteria[k].id())
    } by {
        let r = result_at(contract, evidence, k);
        assert(results.contains(r));
        let n = results.index_of(r);
        assert(results[n].id == contract.criteria[k].id());
        assert(missing_from(results, 0).contains(contract.criteria[k].id()));
    }
    assert forall|id: Seq<char>| #[trigger] evaluation.missing_ids.contains(id) implies exists|
        k: int,
    |
        0 <= k < contract.criteria.len() && contract.criteria[k].id() == id && #[trigger] status_at(
            contract,
            evidence,
            k,
        ) != Ok::<CriterionStatus, GateErrorModel>(CriterionStatus::Satisfied) by {
        let n = choose|n: int|
            0 <= n < results.len() && (#[trigger] results[n]).id == id && results[n].status
                != CriterionStatus::Satisfied;
        assert(results.contains(results[n]));
        let k = choose|k: int|
            0 <= k < contract.criteria.len() && results[n] == #[trigger] result_at(
                contract,
                evidence,
                k,
            );
        assert(status_at(contract, evidence, k) is Ok);
    }
}

/// A contract with a file whose digest is not the declared one never passes, and blocks with
/// the name of that criterion where something is evident of every other one.
pub proof fn another_digest_blocks(
    contract: CompletionContractModel,
    evidence: Seq<EvidenceModel>,
    k: int,
    content: Seq<u8>,
)
    requires
        0 <= k < contract.criteria.len(),
        contract.criteria[k] is FileSha256,
        evidence[k] == (EvidenceModel::File { is_file: Ok(Some(true)), content: Ok(content) }),
        digest::sha256_hex(content) != contract.criteria[k]->sha256,
    ensures
        ({
            let evaluation = evaluation_for(Ok(ContractLoadModel::Active(contract)), evidence);
            &&& evaluation.status != GateStatus::Pass
            &&& (forall|n: int|
                0 <= n < contract.criteria.len() ==> #[trigger] status_at(contract, evidence, n)
                    is Ok) ==> {
                &&& evaluation.status == GateStatus::Block
                &&& evaluation.missing_ids.contains(contract.criteria[k].id())
            }
        }),
{
    crate::completion::only_satisfied_contracts_pass(contract, evidence);
    assert(status_at(contract, evidence, k) == Ok::<CriterionStatus, GateErrorModel>(
        CriterionStatus::Failed,
    ));
    assert(status_of(contract.criteria[k], contract.digest, evidence[k]) != Ok::<
        CriterionStatus,
        GateErrorModel,
    >(CriterionStatus::Satisfied));
    if forall|n: int|
        0 <= n < contract.criteria.len() ==> #[trigger] status_at(contract, evidence, n) is Ok {
        criteria_are_reported(contract, evidence);
    }
}

/// A name that a criterion can have.
pub open spec fn plain_name(id: Seq<char>) -> bool {
    &&& 0 < id.len() <= 128
    &&& forall|i: int| #![trigger id[i]]
        0 <= i < id.len() ==> text::ascii_letter(id[i]) || text::ascii_digit(id[i]) || id[i] == '.'
            || id[i] == '_' || id[i] == ':' || id[i] == '-'
}

/// A path that a criterion can have.
pub open spec fn plain_path(path: Seq<char>, platform: Platform) -> bool {
    path.len() > 0 && text::byte_len(path) <= 4096 && path::descends(path, platform)
}

/// The criterion that is declared, where the declaration is a good one.
pub open spec fn declared(wire: WireCriterionModel, platform: Platform) -> Option<CriterionModel> {
    if wire.kind == Some("command_receipt"@) {
        match wire.command {
            Ok(command) => if command.program == "cargo"@ && command.input_paths.len() <= 64
                && plain_name(command.id) && (forall|k: int|
                0 <= k < command.input_paths.len() ==> plain_path(
                    #[trigger] command.input_paths[k],
                    platform,
                )) {
                Some(
                    CriterionModel::CommandReceipt {
                        id: command.id,
                        program: command.program,
                        args: command.args,
                        input_paths: command.input_paths,
                    },
                )
            } else {
                None
            },
            Err(_) => None,
        }
    } else if wire.kind == Some("file_exists"@) || wire.kind == Some("file_absent"@) {
        match wire.file {
            Ok(file) => if plain_name(file.id) && plain_path(file.path, platform) {
                Some(
                    if wire.kind == Some("file_exists"@) {
                        CriterionModel::FileExists { id: file.id, path: file.path }
                    } else {
                        CriterionModel::FileAbsent { id: file.id, path: file.path }
                    },
                )
            } else {
                None
            },
            Err(_) => None,
        }
    } else if wire.kind == Some("file_sha256"@) {
        match wire.hash {
            Ok(hash) => if plain_name(hash.id) && plain_path(hash.path, platform)
                && hash.sha256.len() == 64 && (forall|k: int| #![trigger hash.sha256[k]]
                0 <= k < 64 ==> '0' <= hash.sha256[k] <= '9' || 'a' <= hash.sha256[k] <= 'f') {
                Some(
                    CriterionModel::FileSha256 {
                        id: hash.id,
                        path: hash.path,
                        sha256: hash.sha256,
                    },
                )
            } else {
                None
            },
            Err(_) => None,
        }
    } else {
        None
    }
}

proof fn paths_are_plain(paths: Seq<Seq<char>>, i: int, platform: Platform)
    requires
        0 <= i,
    ensures
        paths_fault_from(paths, i, platform) is None <==> forall|k: int|
            i <= k < paths.len() ==> plain_path(#[trigger] paths[k], platform),
    decreases paths.len() - i,
{
    if i < paths.len() {
        paths_are_plain(paths, i + 1, platform);
    }
}

proof fn declarations_are_read(wire: WireCriterionModel, platform: Platform)
    ensures
        match criterion_of(wire, platform) {
            Ok(criterion) => declared(wire, platform) == Some(criterion),
            Err(_) => declared(wire, platform) is None,
        },
{
    reveal_strlit("command_receipt");
    reveal_strlit("file_exists");
    reveal_strlit("file_absent");
    reveal_strlit("file_sha256");
    if wire.command is Ok {
        paths_are_plain(wire.command->Ok_0.input_paths, 0, platform);
    }
    if wire.hash is Ok {
        let sha256 = wire.hash->Ok_0.sha256;
        if crate::completion::valid_sha256(sha256) {
            assert forall|k: int| #![trigger sha256[k]] 0 <= k < 64 implies '0' <= sha256[k] <= '9'
                || 'a' <= sha256[k] <= 'f' by {
                assert(crate::completion::hash_char(sha256[k]));
            }
        }
    }
    assert forall|id: Seq<char>| #[trigger] crate::completion::valid_id(id) == plain_name(id) by {
        if crate::completion::valid_id(id) {
            assert forall|i: int| #![trigger id[i]] 0 <= i < id.len() implies text::ascii_letter(
                id[i],
            ) || text::ascii_digit(id[i]) || id[i] == '.' || id[i] == '_' || id[i] == ':' || id[i]
                == '-' by {
                assert(crate::completion::id_char(id[i]));
            }
        }
    }
}

proof fn declarations_are_read_from(
    wires: Seq<WireCriterionModel>,
    i: int,
    criteria: Seq<CriterionModel>,
    platform: Platform,
)
    requires
        0 <= i <= wires.len(),
        criteria.len() == i,
        forall|k: int|
            0 <= k < i ==> declared(wires[k], platform) == Some(#[trigger] criteria[k]),
        forall|j: int, k: int|
            0 <= j < k < i ==> (#[trigger] criteria[j]).id() != (#[trigger] criteria[k]).id(),
    ensures
        match criteria_from(wires, i, criteria, platform) {
            Ok(all) => all.len() == wires.len() && (forall|k: int|
                0 <= k < wires.len() ==> declared(wires[k], platform) == Some(#[trigger] all[k]))
                && (forall|j: int, k: int|
                0 <= j < k < all.len() ==> (#[trigger] all[j]).id() != (#[trigger] all[k]).id()),
            Err(_) => (exists|k: int|
                0 <= k < wires.len() && declared(#[trigger] wires[k], platform) is None) || (exists|
                j: int,
                k: int,
            |
                0 <= j < k < wires.len() && declared(#[trigger] wires[j], platform) is Some
                    && declared(#[trigger] wires[k], platform) is Some && declared(
                    wires[j],
                    platform,
                )->0.id() == declared(wires[k], platform)->0.id()),
        },
    decreases wires.len() - i,
{
    if i < wires.len() {
        declarations_are_read(wires[i], platform);
        match criterion_of(wires[i], platform) {
            Ok(criterion) => {
                if crate::completion::named(criteria, criterion.id()) {
                    let j = choose|j: int|
                        0 <= j < criteria.len() && (#[trigger] criteria[j]).id() == criterion.id();
                    assert(declared(wires[j], platform) == Some(criteria[j]));
                    assert(0 <= j < i < wires.len() && declared(wires[j], platform) is Some
                        && declared(wires[i], platform) is Some);
                } else {
                    declarations_are_read_from(wires, i + 1, criteria.push(criterion), platform);
                }
            },
            Err(_) => {
                assert(declared(wires[i], platform) is None);
            },
        }
    }
}

/// A contract is active exactly where it is not too large, has the version 1 and no more than 64
/// criteria, and every criterion is a good one with a name of its own. It then has the criteria
/// that are declared, in their order, and the digest of its own bytes.
pub proof fn declared_criteria_are_loaded(
    raw: Seq<u8>,
    wire: WireContractModel,
    platform: Platform,
)
    ensures
        ({
            let good = raw.len() <= 65_536 && wire.version == 1 && wire.criteria.len() <= 64;
            let valid = forall|k: int|
                0 <= k < wire.criteria.len() ==> declared(#[trigger] wire.criteria[k], platform)
                    is Some;
            let distinct = forall|j: int, k: int|
                0 <= j < k < wire.criteria.len() ==> declared(#[trigger] wire.criteria[j], platform)
                    ->0.id() != declared(#[trigger] wire.criteria[k], platform)->0.id();
            let load = load_of(Some(raw), Ok(wire), platform);
            &&& good && valid && distinct ==> load is Ok
            &&& load is Ok ==> {
                &&& good
                &&& valid
                &&& distinct
                &&& load->Ok_0 is Active
                &&& load->Ok_0->Active_0.digest == digest::sha256_hex(raw)
                &&& load->Ok_0->Active_0.criteria.len() == wire.criteria.len()
                &&& forall|k: int|
                    0 <= k < wire.criteria.len() ==> declared(wire.criteria[k], platform) == Some(
                        #[trigger] load->Ok_0->Active_0.criteria[k],
                    )
            }
        }),
{
    declarations_are_read_from(wire.criteria, 0, seq![], platform);
    let load = load_of(Some(raw), Ok(wire), platform);
    if load is Ok {
        let all = load->Ok_0->Active_0.criteria;
        assert forall|k: int| 0 <= k < wire.criteria.len() implies declared(
            #[trigger] wire.criteria[k],
            platform,
        ) is Some by {
            assert(declared(wire.criteria[k], platform) == Some(all[k]));
        }
        assert forall|j: int, k: int| 0 <= j < k < wire.criteria.len() implies declared(
            #[trigger] wire.criteria[j],
            platform,
        )->0.id() != declared(#[trigger] wire.criteria[k], platform)->0.id() by {
            assert(declared(wire.criteria[j], platform) == Some(all[j]));
            assert(declared(wire.criteria[k], platform) == Some(all[k]));
        }
    }
}

proof fn same_front(a: Seq<char>, x: Seq<char>, b: Seq<char>, y: Seq<char>)
    requires
        a + seq!['\0'] + x == b + seq!['\0'] + y,
        !a.contains('\0'),
        !b.contains('\0'),
    ensures
        a == b,
        x == y,
{
    let s = a + seq!['\0'] + x;
    let t = b + seq!['\0'] + y;
    if a.len() < b.len() {
        assert(s[a.len() as int] == '\0');
        assert(t[a.len() as int] == b[a.len() as int]);
        assert(b.contains(b[a.len() as int]));
    }
    if b.len() < a.len() {
        assert(t[b.len() as int] == '\0');
        assert(s[b.len() as int] == a[b.len() as int]);
        assert(a.contains(a[b.len() as int]));
    }
    assert forall|i: int| 0 <= i < a.len() implies a[i] == b[i] by {
        assert(s[i] == a[i]);
        assert(t[i] == b[i]);
    }
    assert(a =~= b);
    assert(x =~= s.skip(a.len() as int + 1));
    assert(y =~= t.skip(b.len() as int + 1));
    assert(x =~= y);
}

proof fn args_are_told_apart(a: Seq<Seq<char>>, b: Seq<Seq<char>>, i: int)
    requires
        0 <= i <= a.len(),
        i <= b.len(),
        terminated_from(a, i) == terminated_from(b, i),
        forall|k: int| 0 <= k < a.len() ==> !(#[trigger] a[k]).contains('\0'),
        forall|k: int| 0 <= k < b.len() ==> !(#[trigger] b[k]).contains('\0'),
    ensures
        a.len() == b.len(),
        forall|k: int| i <= k < a.len() ==> a[k] == b[k],
    decreases a.len() - i,
{
    if i < a.len() && i < b.len() {
        same_front(a[i], terminated_from(a, i + 1), b[i], terminated_from(b, i + 1));
        args_are_told_apart(a, b, i + 1);
    } else if i < a.len() {
        assert(terminated_from(a, i).len() > 0);
        assert(terminated_from(b, i).len() == 0);
    } else if i < b.len() {
        assert(terminated_from(b, i).len() > 0);
        assert(terminated_from(a, i).len() == 0);
    }
}

/// Two receipts have the same key only where the contract, the criterion and the command are the
/// same, as long as none of their texts holds a zero character.
pub proof fn receipts_are_told_apart(
    digest_a: Seq<char>,
    id_a: Seq<char>,
    a: CargoCommandModel,
    digest_b: Seq<char>,
    id_b: Seq<char>,
    b: CargoCommandModel,
)
    requires
        !digest_a.contains('\0') && !id_a.contains('\0') && !a.program.contains('\0'),
        !digest_b.contains('\0') && !id_b.contains('\0') && !b.program.contains('\0'),
        forall|k: int| 0 <= k < a.args.len() ==> !(#[trigger] a.args[k]).contains('\0'),
        forall|k: int| 0 <= k < b.args.len() ==> !(#[trigger] b.args[k]).contains('\0'),
        receipt_key(digest_a, id_a, a) == receipt_key(digest_b, id_b, b),
    ensures
        digest_a == digest_b,
        id_a == id_b,
        a.program == b.program,
        a.args == b.args,
{
    let args_a = terminated_from(a.args, 0);
    let args_b = terminated_from(b.args, 0);
    let run_a = a.program + seq!['\0'] + args_a;
    let run_b = b.program + seq!['\0'] + args_b;
    let for_a = id_a + seq!['\0'] + run_a;
    let for_b = id_b + seq!['\0'] + run_b;
    assert(receipt_key(digest_a, id_a, a) =~= digest_a + seq!['\0'] + for_a);
    assert(receipt_key(digest_b, id_b, b) =~= digest_b + seq!['\0'] + for_b);
    same_front(digest_a, for_a, digest_b, for_b);
    same_front(id_a, run_a, id_b, run_b);
    same_front(a.program, args_a, b.program, args_b);
    args_are_told_apart(a.args, b.args, 0);
    assert(a.args =~= b.args);
}

/// The bytes that stand for a file among the inputs of a command.
pub open spec fn frame(file: InputFileModel) -> Seq<u8> {
    vstd::utf8::encode_utf8("file"@ + seq!['\0'] + text::slashed(file.relative) + seq!['\0'])
        + file.raw
}

proof fn frames_around(files: Seq<InputFileModel>, other: InputFileModel, k: int, i: int)
    requires
        0 <= i <= k < files.len(),
    ensures
        exists|front: Seq<u8>, back: Seq<u8>|
            framed_from(files, i) == #[trigger] (front + frame(files[k]) + back) && framed_from(
                files.update(k, other),
                i,
            ) == front + frame(other) + back,
    decreases k - i,
{
    let changed = files.update(k, other);
    if i < k {
        frames_around(files, other, k, i + 1);
        let (front, back) = choose|front: Seq<u8>, back: Seq<u8>|
            framed_from(files, i + 1) == #[trigger] (front + frame(files[k]) + back)
                && framed_from(changed, i + 1) == front + frame(other) + back;
        let longer = frame(files[i]) + front;
        assert(framed_from(files, i) =~= longer + frame(files[k]) + back);
        assert(framed_from(changed, i) =~= longer + frame(other) + back);
    } else {
        frames_alike(files, changed, k + 1);
        let back = framed_from(files, k + 1);
        let front = Seq::<u8>::empty();
        assert(framed_from(files, k) =~= front + frame(files[k]) + back);
        assert(framed_from(changed, k) =~= front + frame(other) + back);
    }
}

proof fn frames_alike(a: Seq<InputFileModel>, b: Seq<InputFileModel>, i: int)
    requires
        0 <= i,
        a.len() == b.len(),
        forall|k: int| i <= k < a.len() ==> a[k] == b[k],
    ensures
        framed_from(a, i) == framed_from(b, i),
    decreases a.len() - i,
{
    if i < a.len() {
        frames_alike(a, b, i + 1);
    }
}

/// Inputs that differ in the content of one file, or in its name alone, are framed as different
/// bytes, and the digest of the inputs is that of the framed bytes.
pub proof fn changed_inputs_are_told_apart(
    files: Seq<InputFileModel>,
    k: int,
    other: InputFileModel,
)
    requires
        0 <= k < files.len(),
        (files[k].raw != other.raw && files[k].relative == other.relative) || (files[k].raw
            == other.raw && text::slashed(files[k].relative) != text::slashed(other.relative)),
    ensures
        framed_from(files, 0) != framed_from(files.update(k, other), 0),
        inputs_digest(files) == digest::sha256_hex(framed_from(files, 0)),
        framed_from(seq![other], 0) == frame(other),
{
    frames_around(files, other, k, 0);
    let (front, back) = choose|front: Seq<u8>, back: Seq<u8>|
        framed_from(files, 0) == #[trigger] (front + frame(files[k]) + back) && framed_from(
            files.update(k, other),
            0,
        ) == front + frame(other) + back;
    let s = front + frame(files[k]) + back;
    let t = front + frame(other) + back;
    let a = "file"@ + seq!['\0'] + text::slashed(files[k].relative) + seq!['\0'];
    let b = "file"@ + seq!['\0'] + text::slashed(other.relative) + seq!['\0'];
    if s == t {
        assert(s.len() == front.len() + frame(files[k]).len() + back.len());
        assert(t.len() == front.len() + frame(other).len() + back.len());
        let n = front.len() as int;
        let m = n + frame(other).len();
        assert(frame(files[k]) =~= s.subrange(n, m));
        assert(frame(other) =~= t.subrange(n, m));
        let raw_a = vstd::utf8::encode_utf8(a);
        let raw_b = vstd::utf8::encode_utf8(b);
        if files[k].raw == other.raw {
            assert(raw_a.len() == raw_b.len());
            assert(raw_a =~= frame(files[k]).take(raw_a.len() as int));
            assert(raw_b =~= frame(other).take(raw_b.len() as int));
            vstd::utf8::encode_utf8_decode_utf8(a);
            vstd::utf8::encode_utf8_decode_utf8(b);
            assert(a == b);
            let from = "file"@.len() + 1;
            assert(text::slashed(files[k].relative) =~= a.subrange(from as int, a.len() - 1));
            assert(text::slashed(other.relative) =~= b.subrange(from as int, b.len() - 1));
        } else {
            assert(files[k].raw =~= frame(files[k]).skip(raw_a.len() as int));
            assert(other.raw =~= frame(other).skip(raw_b.len() as int));
        }
    }
    reveal_with_fuel(framed_from, 2);
    assert(framed_from(seq![other], 0) =~= frame(other));
}

proof fn paths_are_inserted(list: Seq<Seq<char>>, item: Seq<char>, i: int)
    requires
        0 <= i <= list.len(),
    ensures
        ({
            let r = path::inserted_from(list, item, i);
            &&& r.contains(item)
            &&& forall|k: int| 0 <= k < list.len() ==> r.contains(#[trigger] list[k])
            &&& r == list || r.len() == list.len() + 1
        }),
    decreases list.len() - i,
{
    let r = path::inserted_from(list, item, i);
    if i >= list.len() {
        assert(r[list.len() as int] == item);
        assert forall|k: int| 0 <= k < list.len() implies r.contains(#[trigger] list[k]) by {
            assert(r[k] == list[k]);
        }
    } else if list[i] == item {
        assert(list.contains(list[i]));
        assert forall|k: int| 0 <= k < list.len() implies r.contains(#[trigger] list[k]) by {
            assert(r[k] == list[k]);
        }
    } else if path::before(item, list[i]) {
        assert(r[i] == item);
        assert forall|k: int| 0 <= k < list.len() implies r.contains(#[trigger] list[k]) by {
            if k < i {
                assert(r[k] == list[k]);
            } else {
                assert(r[k + 1] == list[k]);
            }
        }
    } else {
        paths_are_inserted(list, item, i + 1);
    }
}

/// A file below the workspace is kept among the inputs, a directory is entered only where it is
/// a new one, and whatever is outside the workspace or neither file nor directory is refused.
pub proof fn inputs_are_collected(
    collection: InputCollectionModel,
    workspace: Seq<char>,
    path: Seq<char>,
    canonical: Seq<char>,
    kind: EntryKind,
)
    ensures
        match collection.visited(workspace, path, canonical, kind) {
            Ok((next, enter)) => {
                &&& path::within(canonical, workspace)
                &&& kind == EntryKind::File || kind == EntryKind::Directory
                &&& kind == EntryKind::File ==> next.files.contains(canonical) && !enter
                    && next.directories == collection.directories
                &&& kind == EntryKind::Directory ==> next.directories.contains(canonical)
                    && next.files == collection.files && enter == (next.directories
                    != collection.directories)
                &&& forall|k: int|
                    0 <= k < collection.files.len() ==> next.files.contains(
                        #[trigger] collection.files[k],
                    )
                &&& next.files.len() <= 4096 || next.files == collection.files
            },
            Err(error) => {
                ||| !path::within(canonical, workspace)
                ||| kind == EntryKind::Other
                ||| error == GateErrorModel::TooManyFiles && collection.files.len()
                    + collection.directories.len() >= 4096
            },
        },
{
    paths_are_inserted(collection.files, canonical, 0);
    paths_are_inserted(collection.directories, canonical, 0);
    assert forall|k: int| 0 <= k < collection.files.len() implies collection.files.contains(
        #[trigger] collection.files[k],
    ) by {}
}

/// The reason of a contract that blocks names what is missing, where there is room for it; one
/// that passes gives no reason; and a contract that cannot be read, or evidence that cannot be
/// had, is told as that.
pub proof fn reasons_name_what_is_missing(
    contract: CompletionContractModel,
    evidence: Seq<EvidenceModel>,
    error: GateErrorModel,
)
    ensures
        ({
            let evaluation = evaluation_for(Ok(ContractLoadModel::Active(contract)), evidence);
            let reason = "missing: "@ + text::joined(evaluation.missing_ids, ","@);
            &&& evaluation.status == GateStatus::Block && text::byte_len(reason) <= 2_048
                ==> evaluation.reason == reason
            &&& evaluation.status == GateStatus::Pass ==> evaluation.reason.len() == 0
                && evaluation.missing_ids.len() == 0
        }),
        ({
            let evaluation = evaluation_for(Err(error), evidence);
            &&& error is MalformedContract || error is UnsupportedContract ==> evaluation.status
                == GateStatus::InvalidContract
            &&& !(error is MalformedContract || error is UnsupportedContract)
                ==> evaluation.status == GateStatus::EvidenceUnavailable
            &&& evaluation.criteria.len() == 0
        }),
        evaluation_for(Ok(ContractLoadModel::Absent), evidence).criteria.len() == 0,
{
}

} // verus!

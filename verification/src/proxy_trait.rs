//! The operations every query proxy offers, with one contract shared by all
//! of them: each proxy is its base state plus command-specific arguments.

use vstd::prelude::*;

use crate::context_broker::ContextBrokerProxy;
use crate::inference::InferenceProxy;
use crate::link_creation::LinkCreationProxy;
use crate::pattern_matching::PatternMatchingQueryProxy;
use crate::proxy::{BaseQueryProxy, MessageData, BUS_COMMAND_PROXY};
use crate::query_evolution::QueryEvolutionProxy;

verus! {

/// The shared face of the specialized proxies: every operation acts on the
/// proxy's base state.
pub trait BaseQueryProxyT: Sized {
    /// The proxy's base state.
    spec fn base(&self) -> BaseQueryProxy;

    /// Whether the query is finished.
    fn finished(&self) -> (r: bool)
        ensures
            r == self.base().spec_finished(),
    ;

    /// Takes the oldest answer; a count-only or aborted query yields
    /// nothing.
    fn pop(&mut self) -> (r: Option<String>)
        ensures
            old(self).base().count_flag || old(self).base().abort_flag ==> r is None
                && final(self).base() == old(self).base(),
            !old(self).base().count_flag && !old(self).base().abort_flag
                && old(self).base().answer_queue@.len() == 0 ==> r is None
                && final(self).base() == old(self).base(),
            !old(self).base().count_flag && !old(self).base().abort_flag
                && old(self).base().answer_queue@.len() > 0 ==> {
                &&& r == Some(old(self).base().answer_queue@[0])
                &&& final(self).base().answer_queue@
                    == old(self).base().answer_queue@.drop_first()
                &&& final(self).base().abort_flag == old(self).base().abort_flag
                &&& final(self).base().count_flag == old(self).base().count_flag
                &&& final(self).base().answer_count == old(self).base().answer_count
            },
            old(self).base().wf() ==> final(self).base().wf(),
    ;

    /// Appends one answer and counts it.
    fn push(&mut self, query_answer: String) -> (r: Result<(), String>)
        requires
            old(self).base().answer_count < u64::MAX,
        ensures
            r is Ok,
            final(self).base().answer_queue@ == old(self).base().answer_queue@.push(query_answer),
            final(self).base().answer_count == old(self).base().answer_count + 1,
            old(self).base().wf() ==> final(self).base().wf(),
    ;

    /// The number of answers counted.
    fn get_count(&self) -> (r: u64)
        ensures
            r == self.base().answer_count,
    ;

    /// Marks the query aborted.
    fn abort(&mut self)
        ensures
            final(self).base() == (BaseQueryProxy { abort_flag: true, ..old(self).base() }),
    ;

    /// The frame that carries `command` to this query's remote peer.
    fn to_remote_peer(&self, command: String, args: Vec<String>) -> (r: MessageData)
        ensures
            r.command@ == BUS_COMMAND_PROXY@,
            r.args.deep_view() == args.deep_view().push(command@),
            r.sender@ == self.base().proxy_node.node_id@,
            !r.is_broadcast,
    ;
}

impl BaseQueryProxyT for PatternMatchingQueryProxy {
    open spec fn base(&self) -> BaseQueryProxy {
        self.base
    }

    fn finished(&self) -> (r: bool) {
        self.base.finished()
    }

    fn pop(&mut self) -> (r: Option<String>) {
        self.base.pop()
    }

    fn push(&mut self, query_answer: String) -> (r: Result<(), String>) {
        self.base.push(query_answer)
    }

    fn get_count(&self) -> (r: u64) {
        self.base.get_count()
    }

    fn abort(&mut self) {
        self.base.abort()
    }

    fn to_remote_peer(&self, command: String, args: Vec<String>) -> (r: MessageData) {
        self.base.to_remote_peer(command, args)
    }
}

impl BaseQueryProxyT for InferenceProxy {
    open spec fn base(&self) -> BaseQueryProxy {
        self.base
    }

    fn finished(&self) -> (r: bool) {
        self.base.finished()
    }

    fn pop(&mut self) -> (r: Option<String>) {
        self.base.pop()
    }

    fn push(&mut self, query_answer: String) -> (r: Result<(), String>) {
        self.base.push(query_answer)
    }

    fn get_count(&self) -> (r: u64) {
        self.base.get_count()
    }

    fn abort(&mut self) {
        self.base.abort()
    }

    fn to_remote_peer(&self, command: String, args: Vec<String>) -> (r: MessageData) {
        self.base.to_remote_peer(command, args)
    }
}

impl BaseQueryProxyT for LinkCreationProxy {
    open spec fn base(&self) -> BaseQueryProxy {
        self.base
    }

    fn finished(&self) -> (r: bool) {
        self.base.finished()
    }

    fn pop(&mut self) -> (r: Option<String>) {
        self.base.pop()
    }

    fn push(&mut self, query_answer: String) -> (r: Result<(), String>) {
        self.base.push(query_answer)
    }

    fn get_count(&self) -> (r: u64) {
        self.base.get_count()
    }

    fn abort(&mut self) {
        self.base.abort()
    }

    fn to_remote_peer(&self, command: String, args: Vec<String>) -> (r: MessageData) {
        self.base.to_remote_peer(command, args)
    }
}

impl BaseQueryProxyT for ContextBrokerProxy {
    open spec fn base(&self) -> BaseQueryProxy {
        self.base
    }

    fn finished(&self) -> (r: bool) {
        self.base.finished()
    }

    fn pop(&mut self) -> (r: Option<String>) {
        self.base.pop()
    }

    fn push(&mut self, query_answer: String) -> (r: Result<(), String>) {
        self.base.push(query_answer)
    }

    fn get_count(&self) -> (r: u64) {
        self.base.get_count()
    }

    fn abort(&mut self) {
        self.base.abort()
    }

    fn to_remote_peer(&self, command: String, args: Vec<String>) -> (r: MessageData) {
        self.base.to_remote_peer(command, args)
    }
}

impl BaseQueryProxyT for QueryEvolutionProxy {
    open spec fn base(&self) -> BaseQueryProxy {
        self.base
    }

    fn finished(&self) -> (r: bool) {
        self.base.finished()
    }

    fn pop(&mut self) -> (r: Option<String>) {
        self.base.pop()
    }

    fn push(&mut self, query_answer: String) -> (r: Result<(), String>) {
        self.base.push(query_answer)
    }

    fn get_count(&self) -> (r: u64) {
        self.base.get_count()
    }

    fn abort(&mut self) {
        self.base.abort()
    }

    fn to_remote_peer(&self, command: String, args: Vec<String>) -> (r: MessageData) {
        self.base.to_remote_peer(command, args)
    }
}

} // verus!

use vstd::prelude::*;

verus! {

broadcast use vstd::string::to_string_from_display_ensures_for_str;

/// The role the node plays in consensus.
#[derive(Debug, Clone, Copy, PartialEq, Eq, Structural)]
pub enum Mode {
    Main,
    External,
}

/// Why wiring a layer failed.
#[derive(Debug, Clone, PartialEq, Eq)]
pub enum WiringError {
    Configuration(String),
}

/// `r` is a configuration error with message `msg`.
pub open spec fn is_configuration_error<T>(r: Result<T, WiringError>, msg: Seq<char>) -> bool {
    r matches Err(WiringError::Configuration(m)) && m@ == msg
}

/// The task that the consensus layer adds to the node.
#[derive(Debug)]
pub enum ConsensusTask<C, S, Q> {
    /// The main node runs consensus with its public config and its secrets.
    MainNode { config: C, secrets: S },
    /// An external node fetches blocks into the action queue; with a config
    /// and secrets it also takes part in gossip.
    Fetcher { consensus: Option<(C, S)>, action_queue_sender: Q },
}

/// The consensus wiring layer: a mode, with the public config `C` and the
/// secrets `S` where they were given.
#[derive(Debug)]
pub struct ConsensusLayer<C, S> {
    pub mode: Mode,
    pub config: Option<C>,
    pub secrets: Option<S>,
}

impl<C, S> ConsensusLayer<C, S> {
    pub fn layer_name(&self) -> (r: &'static str)
        ensures
            r@ == "consensus_layer"@,
    {
        "consensus_layer"
    }

    /// Decides which task to add. The main node needs both config and
    /// secrets, and leaves the action queue sender where it is. An external
    /// node takes the sender out of its resource, which must still hold it; it
    /// runs with config and secrets where both are given, without them where
    /// no config is given, and a config without secrets is refused.
    pub fn wire<Q>(self, action_queue_sender: &mut Option<Q>) -> (r: Result<ConsensusTask<C, S, Q>, WiringError>)
        ensures
            self.mode == Mode::Main ==> *final(action_queue_sender) == *old(action_queue_sender),
            self.mode == Mode::Main ==> match (self.config, self.secrets) {
                (Some(c), Some(s)) => r == Ok::<ConsensusTask<C, S, Q>, WiringError>(
                    ConsensusTask::MainNode { config: c, secrets: s },
                ),
                (None, _) => is_configuration_error(r, "Missing public consensus config"@),
                (Some(_), None) => is_configuration_error(r, "Missing private consensus config"@),
            },
            self.mode == Mode::External ==> *final(action_queue_sender) is None,
            self.mode == Mode::External ==> match *old(action_queue_sender) {
                None => is_configuration_error(r, "Action queue sender is taken by another resource"@),
                Some(q) => match (self.config, self.secrets) {
                    (Some(c), Some(s)) => r == Ok::<ConsensusTask<C, S, Q>, WiringError>(
                        ConsensusTask::Fetcher { consensus: Some((c, s)), action_queue_sender: q },
                    ),
                    (Some(_), None) => is_configuration_error(
                        r,
                        "Consensus config is specified, but secrets are missing"@,
                    ),
                    (None, _) => r == Ok::<ConsensusTask<C, S, Q>, WiringError>(
                        ConsensusTask::Fetcher { consensus: None, action_queue_sender: q },
                    ),
                },
            },
    {
        match self.mode {
            Mode::Main => {
                let config = match self.config {
                    Some(c) => c,
                    None => {
                        return Err(WiringError::Configuration("Missing public consensus config".to_string()));
                    },
                };
                let secrets = match self.secrets {
                    Some(s) => s,
                    None => {
                        return Err(WiringError::Configuration("Missing private consensus config".to_string()));
                    },
                };
                Ok(ConsensusTask::MainNode { config, secrets })
            },
            Mode::External => {
                let mut taken: Option<Q> = None;
                core::mem::swap(action_queue_sender, &mut taken);
                let q = match taken {
                    Some(q) => q,
                    None => {
                        return Err(WiringError::Configuration(
                            "Action queue sender is taken by another resource".to_string(),
                        ));
                    },
                };
                match (self.config, self.secrets) {
                    (Some(c), Some(s)) => Ok(ConsensusTask::Fetcher { consensus: Some((c, s)), action_queue_sender: q }),
                    (Some(_), None) => Err(WiringError::Configuration(
                        "Consensus config is specified, but secrets are missing".to_string(),
                    )),
                    (None, _) => Ok(ConsensusTask::Fetcher { consensus: None, action_queue_sender: q }),
                }
            },
        }
    }
}

impl<C, S, Q> ConsensusTask<C, S, Q> {
    /// The name the task runs under.
    pub fn name(&self) -> (r: &'static str)
        ensures
            self is MainNode ==> r@ == "consensus"@,
            self is Fetcher ==> r@ == "consensus_fetcher"@,
    {
        match self {
            ConsensusTask::MainNode { .. } => "consensus",
            ConsensusTask::Fetcher { .. } => "consensus_fetcher",
        }
    }
}

} // verus!

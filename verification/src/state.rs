//! The app's state between user actions: both remotes' settings, the
//! active one, the last synchronisation result and error, the lock between
//! local writes and synchronisation, and what the last hotkey press saw.
use vstd::prelude::*;
use crate::config::{cloud_view, github_view, sync_precheck, sync_status_of, IoGate, SyncProvider};
use crate::github::GitHubConfig;
use crate::sync::{
    download_summary, download_summary_text, error_summary, join_with, upload_summary,
    upload_summary_text, SyncReport, SyncStatus,
};
use crate::webdav::CloudConfig;

verus! {

/// The state shared by the app's commands.
#[derive(Debug)]
pub struct AppState {
    pub cloud: CloudConfig,
    pub github: GitHubConfig,
    pub provider: SyncProvider,
    pub last_sync: Option<String>,
    pub last_error: Option<String>,
    pub io_gate: IoGate,
    pub last_hotkey_had_text_input: bool,
}

fn copy_cloud(c: &CloudConfig) -> (r: CloudConfig)
    ensures
        cloud_view(r) == cloud_view(*c),
{
    CloudConfig {
        username: c.username.clone(),
        password: c.password.clone(),
        remote_root: c.remote_root.clone(),
        enabled: c.enabled,
    }
}

fn copy_github(c: &GitHubConfig) -> (r: GitHubConfig)
    ensures
        github_view(r) == github_view(*c),
{
    GitHubConfig {
        repo: c.repo.clone(),
        branch: c.branch.clone(),
        prefix: c.prefix.clone(),
        token: c.token.clone(),
        enabled: c.enabled,
    }
}

fn copy_text(o: &Option<String>) -> (r: Option<String>)
    ensures
        r == *o,
{
    match o {
        Some(s) => Some(s.clone()),
        None => None,
    }
}

/// The error left to show after a run: all failures joined by `; `, or none.
pub open spec fn run_error(r: SyncReport) -> Option<Seq<char>> {
    if r.errors@.len() == 0 {
        None
    } else {
        Some(join_with(r.errors.deep_view(), "; "@))
    }
}

/// An optional text as a plain value.
pub open spec fn opt_view(o: Option<String>) -> Option<Seq<char>> {
    match o {
        Some(s) => Some(s@),
        None => None,
    }
}

impl AppState {
    /// The state at start-up, with the loaded settings.
    pub fn new(cloud: CloudConfig, github: GitHubConfig, provider: SyncProvider) -> (s: AppState)
        ensures
            s.cloud == cloud,
            s.github == github,
            s.provider == provider,
            s.last_sync is None,
            s.last_error is None,
            !s.io_gate.syncing,
            !s.last_hotkey_had_text_input,
    {
        AppState {
            cloud,
            github,
            provider,
            last_sync: None,
            last_error: None,
            io_gate: IoGate::new(),
            last_hotkey_had_text_input: false,
        }
    }

    /// The WebDAV settings.
    pub fn cloud_config(&self) -> (r: CloudConfig)
        ensures
            cloud_view(r) == cloud_view(self.cloud),
    {
        copy_cloud(&self.cloud)
    }

    /// The GitHub settings.
    pub fn github_config(&self) -> (r: GitHubConfig)
        ensures
            github_view(r) == github_view(self.github),
    {
        copy_github(&self.github)
    }

    /// The active remote.
    pub fn provider(&self) -> (r: SyncProvider)
        ensures
            r == self.provider,
    {
        self.provider
    }

    /// Remembers whether the last hotkey press happened in a text input.
    pub fn set_last_hotkey_had_text_input(&mut self, had_text_input: bool)
        ensures
            final(self).last_hotkey_had_text_input == had_text_input,
            final(self).cloud == old(self).cloud,
            final(self).github == old(self).github,
            final(self).provider == old(self).provider,
            final(self).last_sync == old(self).last_sync,
            final(self).last_error == old(self).last_error,
            final(self).io_gate == old(self).io_gate,
    {
        self.last_hotkey_had_text_input = had_text_input;
    }

    /// Whether the last hotkey press happened in a text input; the answer is
    /// given once, then forgotten.
    pub fn take_last_hotkey_had_text_input(&mut self) -> (r: bool)
        ensures
            r == old(self).last_hotkey_had_text_input,
            !final(self).last_hotkey_had_text_input,
            final(self).cloud == old(self).cloud,
            final(self).github == old(self).github,
            final(self).provider == old(self).provider,
            final(self).last_sync == old(self).last_sync,
            final(self).last_error == old(self).last_error,
            final(self).io_gate == old(self).io_gate,
    {
        let had = self.last_hotkey_had_text_input;
        self.last_hotkey_had_text_input = false;
        had
    }

    /// Takes the saved WebDAV settings; a warning from saving (the
    /// credential store failed) becomes the error shown.
    pub fn set_cloud_config(&mut self, cfg: CloudConfig, warning: Option<String>)
        ensures
            final(self).cloud == cfg,
            warning is Some ==> final(self).last_error == warning,
            warning is None ==> final(self).last_error == old(self).last_error,
            final(self).github == old(self).github,
            final(self).provider == old(self).provider,
            final(self).last_sync == old(self).last_sync,
            final(self).io_gate == old(self).io_gate,
            final(self).last_hotkey_had_text_input == old(self).last_hotkey_had_text_input,
    {
        self.cloud = cfg;
        if warning.is_some() {
            self.last_error = warning;
        }
    }

    /// Takes the saved GitHub settings; a warning from saving becomes the
    /// error shown.
    pub fn set_github_config(&mut self, cfg: GitHubConfig, warning: Option<String>)
        ensures
            final(self).github == cfg,
            warning is Some ==> final(self).last_error == warning,
            warning is None ==> final(self).last_error == old(self).last_error,
            final(self).cloud == old(self).cloud,
            final(self).provider == old(self).provider,
            final(self).last_sync == old(self).last_sync,
            final(self).io_gate == old(self).io_gate,
            final(self).last_hotkey_had_text_input == old(self).last_hotkey_had_text_input,
    {
        self.github = cfg;
        if warning.is_some() {
            self.last_error = warning;
        }
    }

    /// Makes `p` the active remote; both remotes keep their settings.
    pub fn set_provider(&mut self, p: SyncProvider)
        ensures
            final(self).provider == p,
            final(self).cloud == old(self).cloud,
            final(self).github == old(self).github,
            final(self).last_sync == old(self).last_sync,
            final(self).last_error == old(self).last_error,
            final(self).io_gate == old(self).io_gate,
            final(self).last_hotkey_had_text_input == old(self).last_hotkey_had_text_input,
    {
        self.provider = p;
    }

    /// The synchronisation state to show, for the active remote.
    pub fn sync_status(&self) -> (r: SyncStatus)
        ensures
            r.configured == (match self.provider {
                SyncProvider::WebDav => self.cloud.configured(),
                SyncProvider::GitHub => self.github.configured(),
            }),
            r.enabled == (match self.provider {
                SyncProvider::WebDav => self.cloud.enabled,
                SyncProvider::GitHub => self.github.enabled,
            }),
            r.last_sync == self.last_sync,
            r.last_error == self.last_error,
            r.syncing == self.io_gate.syncing,
    {
        sync_status_of(
            self.provider,
            &self.cloud,
            &self.github,
            copy_text(&self.last_sync),
            copy_text(&self.last_error),
            self.io_gate.syncing,
        )
    }

    /// A local write may go ahead only while no run goes on.
    pub fn begin_local_io(&self) -> (r: Result<(), String>)
        ensures
            r is Ok <==> !self.io_gate.syncing,
            r matches Err(e) ==> e@ == crate::config::LOCAL_IO_BUSY@,
    {
        self.io_gate.begin_local_io()
    }

    /// Starts a manual upload or download: the active remote must be
    /// configured, and no run may be going on. Gives the remote to use.
    pub fn begin_sync(&mut self) -> (r: Result<SyncProvider, String>)
        ensures
            r matches Ok(p) ==> p == old(self).provider && !old(self).io_gate.syncing
                && final(self).io_gate.syncing,
            r is Ok <==> (!old(self).io_gate.syncing && match old(self).provider {
                SyncProvider::WebDav => old(self).cloud.configured(),
                SyncProvider::GitHub => old(self).github.configured(),
            }),
            r is Err ==> final(self).io_gate == old(self).io_gate,
            final(self).cloud == old(self).cloud,
            final(self).github == old(self).github,
            final(self).provider == old(self).provider,
            final(self).last_sync == old(self).last_sync,
            final(self).last_error == old(self).last_error,
            final(self).last_hotkey_had_text_input == old(self).last_hotkey_had_text_input,
    {
        match sync_precheck(self.provider, &self.cloud, &self.github) {
            Err(e) => return Err(e),
            Ok(()) => {},
        }
        match self.io_gate.acquire() {
            Err(e) => Err(e),
            Ok(()) => Ok(self.provider),
        }
    }

    /// Ends a run that stopped before it had a result (its remote could
    /// not be set up).
    pub fn cancel_sync(&mut self)
        ensures
            !final(self).io_gate.syncing,
            final(self).cloud == old(self).cloud,
            final(self).github == old(self).github,
            final(self).provider == old(self).provider,
            final(self).last_sync == old(self).last_sync,
            final(self).last_error == old(self).last_error,
            final(self).last_hotkey_had_text_input == old(self).last_hotkey_had_text_input,
    {
        self.io_gate.release();
    }

    /// Ends an upload with its result: the summary becomes the last result
    /// and the failures (if any) the error shown; a failed run leaves its
    /// error. Gives the summary or the error.
    pub fn finish_upload(&mut self, result: Result<SyncReport, String>) -> (r: Result<String, String>)
        ensures
            !final(self).io_gate.syncing,
            match result {
                Ok(rep) => (r matches Ok(m) && m@ == upload_summary_text(rep))
                    && opt_view(final(self).last_sync) == Some(upload_summary_text(rep))
                    && opt_view(final(self).last_error) == run_error(rep),
                Err(e) => (r matches Err(f) && f@ == e@) && opt_view(final(self).last_error) == Some(e@)
                    && final(self).last_sync == old(self).last_sync,
            },
            final(self).cloud == old(self).cloud,
            final(self).github == old(self).github,
            final(self).provider == old(self).provider,
            final(self).last_hotkey_had_text_input == old(self).last_hotkey_had_text_input,
    {
        self.io_gate.release();
        match result {
            Ok(rep) => {
                let msg = upload_summary(&rep);
                self.last_error = error_summary(&rep);
                self.last_sync = Some(msg.clone());
                Ok(msg)
            },
            Err(e) => {
                self.last_error = Some(e.clone());
                Err(e)
            },
        }
    }

    /// Ends a download with its result, as an upload does.
    pub fn finish_download(&mut self, result: Result<SyncReport, String>) -> (r: Result<String, String>)
        ensures
            !final(self).io_gate.syncing,
            match result {
                Ok(rep) => (r matches Ok(m) && m@ == download_summary_text(rep))
                    && opt_view(final(self).last_sync) == Some(download_summary_text(rep))
                    && opt_view(final(self).last_error) == run_error(rep),
                Err(e) => (r matches Err(f) && f@ == e@) && opt_view(final(self).last_error) == Some(e@)
                    && final(self).last_sync == old(self).last_sync,
            },
            final(self).cloud == old(self).cloud,
            final(self).github == old(self).github,
            final(self).provider == old(self).provider,
            final(self).last_hotkey_had_text_input == old(self).last_hotkey_had_text_input,
    {
        self.io_gate.release();
        match result {
            Ok(rep) => {
                let msg = download_summary(&rep);
                self.last_error = error_summary(&rep);
                self.last_sync = Some(msg.clone());
                Ok(msg)
            },
            Err(e) => {
                self.last_error = Some(e.clone());
                Err(e)
            },
        }
    }
}

} // verus!
